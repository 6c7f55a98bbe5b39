//! Strings as sequences of characters: searching, trimming, splitting, and
//! numbers in text.

use vstd::prelude::*;
use vstd::arithmetic::power2::{lemma2_to64, lemma_pow2_pos, lemma_pow2_unfold, pow2};

verus! {

/// `String::push`: appends one character to the end of the string.
pub assume_specification[ String::push ](s: &mut String, c: char)
    ensures
        final(s)@ == old(s)@.push(c),
;

// ---------------------------------------------------------------------------
// Characters
// ---------------------------------------------------------------------------

/// The characters with the Unicode White_Space property.
pub open spec fn is_space(c: char) -> bool {
    ||| '\u{9}' <= c && c <= '\u{d}'
    ||| c == '\u{20}'
    ||| c == '\u{85}'
    ||| c == '\u{a0}'
    ||| c == '\u{1680}'
    ||| '\u{2000}' <= c && c <= '\u{200a}'
    ||| c == '\u{2028}'
    ||| c == '\u{2029}'
    ||| c == '\u{202f}'
    ||| c == '\u{205f}'
    ||| c == '\u{3000}'
}

/// Whether `c` is white space.
pub fn char_is_space(c: char) -> (b: bool)
    ensures
        b == is_space(c),
{
    ('\u{9}' <= c && c <= '\u{d}') || c == '\u{20}' || c == '\u{85}' || c == '\u{a0}' || c
        == '\u{1680}' || ('\u{2000}' <= c && c <= '\u{200a}') || c == '\u{2028}' || c == '\u{2029}'
        || c == '\u{202f}' || c == '\u{205f}' || c == '\u{3000}'
}

/// An ASCII digit.
pub open spec fn is_digit(c: char) -> bool {
    '0' <= c && c <= '9'
}

/// An ASCII letter or digit.
pub open spec fn is_alnum(c: char) -> bool {
    is_digit(c) || ('a' <= c && c <= 'z') || ('A' <= c && c <= 'Z')
}

/// Whether `c` is an ASCII digit.
pub fn char_is_digit(c: char) -> (b: bool)
    ensures
        b == is_digit(c),
{
    '0' <= c && c <= '9'
}

/// Whether `c` is an ASCII letter or digit.
pub fn char_is_alnum(c: char) -> (b: bool)
    ensures
        b == is_alnum(c),
{
    char_is_digit(c) || ('a' <= c && c <= 'z') || ('A' <= c && c <= 'Z')
}

/// `c` with ASCII letters in lower case.
pub open spec fn lower(c: char) -> char {
    if 'A' <= c && c <= 'Z' {
        ((c as u8) + 32) as char
    } else {
        c
    }
}

/// `c` with ASCII letters in lower case.
pub fn char_lower(c: char) -> (r: char)
    ensures
        r == lower(c),
{
    if 'A' <= c && c <= 'Z' {
        ((c as u8) + 32) as char
    } else {
        c
    }
}

/// The text with ASCII letters in lower case.
pub open spec fn lowered(s: Seq<char>) -> Seq<char> {
    Seq::new(s.len(), |i: int| lower(s[i]))
}

// ---------------------------------------------------------------------------
// Searching
// ---------------------------------------------------------------------------

/// The place of the first `c` at or behind `i`; the end of the text where
/// there is none.
pub open spec fn find_from(s: Seq<char>, c: char, i: int) -> int
    decreases s.len() - i,
{
    if i >= s.len() {
        s.len() as int
    } else if s[i] == c {
        i
    } else {
        find_from(s, c, i + 1)
    }
}

/// The place of the last `c` before `end`; -1 where there is none.
pub open spec fn rfind_before(s: Seq<char>, c: char, end: int) -> int
    decreases end,
{
    if end <= 0 {
        -1
    } else if s[end - 1] == c {
        end - 1
    } else {
        rfind_before(s, c, end - 1)
    }
}

/// The two parts around the first `c`.
pub open spec fn split_first(s: Seq<char>, c: char) -> Option<(Seq<char>, Seq<char>)> {
    let i = find_from(s, c, 0);
    if i < s.len() {
        Some((s.take(i), s.skip(i + 1)))
    } else {
        None
    }
}

/// The two parts around the last `c`.
pub open spec fn split_last(s: Seq<char>, c: char) -> Option<(Seq<char>, Seq<char>)> {
    let i = rfind_before(s, c, s.len() as int);
    if i >= 0 {
        Some((s.take(i), s.skip(i + 1)))
    } else {
        None
    }
}

/// `s` starts with `p`.
pub open spec fn has_prefix(s: Seq<char>, p: Seq<char>) -> bool {
    p.len() <= s.len() && s.take(p.len() as int) == p
}

/// `s` ends with `p`.
pub open spec fn has_suffix(s: Seq<char>, p: Seq<char>) -> bool {
    p.len() <= s.len() && s.skip(s.len() - p.len()) == p
}

/// `t` stands somewhere in `s`.
pub open spec fn contains_text(s: Seq<char>, t: Seq<char>) -> bool {
    exists|i: int| 0 <= i <= s.len() - t.len() && #[trigger] s.subrange(i, i + t.len()) == t
}

/// The text without trailing white space.
pub open spec fn trimmed_end(s: Seq<char>) -> Seq<char>
    decreases s.len(),
{
    if s.len() > 0 && is_space(s.last()) {
        trimmed_end(s.drop_last())
    } else {
        s
    }
}

/// The text without leading white space.
pub open spec fn trimmed_start(s: Seq<char>) -> Seq<char>
    decreases s.len(),
{
    if s.len() > 0 && is_space(s[0]) {
        trimmed_start(s.skip(1))
    } else {
        s
    }
}

/// The text without leading and trailing white space.
pub open spec fn trimmed(s: Seq<char>) -> Seq<char> {
    trimmed_end(trimmed_start(s))
}

/// The parts of the text between occurrences of `c`; one part more than there
/// are occurrences.
pub open spec fn split_all(s: Seq<char>, c: char) -> Seq<Seq<char>>
    decreases s.len(),
{
    let i = find_from(s, c, 0);
    if 0 <= i < s.len() {
        seq![s.take(i)] + split_all(s.skip(i + 1), c)
    } else {
        seq![s]
    }
}

/// The place of the first white space at or behind `i`.
pub open spec fn word_end(s: Seq<char>, i: int) -> int
    decreases s.len() - i,
{
    if i >= s.len() {
        s.len() as int
    } else if is_space(s[i]) {
        i
    } else {
        word_end(s, i + 1)
    }
}

/// The words of the text: its longest runs without white space.
pub open spec fn words(s: Seq<char>) -> Seq<Seq<char>>
    decreases s.len(),
{
    if s.len() == 0 {
        Seq::empty()
    } else if is_space(s[0]) {
        words(s.skip(1))
    } else {
        let e = word_end(s, 1);
        if 1 <= e <= s.len() {
            seq![s.take(e)] + words(s.skip(e))
        } else {
            Seq::empty()
        }
    }
}

pub proof fn lemma_find_from(s: Seq<char>, c: char, i: int)
    requires
        0 <= i <= s.len(),
    ensures
        i <= find_from(s, c, i) <= s.len(),
        find_from(s, c, i) < s.len() ==> s[find_from(s, c, i)] == c,
        forall|k: int| i <= k < find_from(s, c, i) ==> #[trigger] s[k] != c,
    decreases s.len() - i,
{
    if i < s.len() && s[i] != c {
        lemma_find_from(s, c, i + 1);
    }
}

pub proof fn lemma_rfind_before(s: Seq<char>, c: char, end: int)
    requires
        0 <= end <= s.len(),
    ensures
        -1 <= rfind_before(s, c, end) < end || end == 0 && rfind_before(s, c, end) == -1,
        rfind_before(s, c, end) >= 0 ==> s[rfind_before(s, c, end)] == c,
        forall|k: int| rfind_before(s, c, end) < k < end ==> #[trigger] s[k] != c,
    decreases end,
{
    if end > 0 && s[end - 1] != c {
        lemma_rfind_before(s, c, end - 1);
    }
}

/// There is always a first part.
pub proof fn lemma_split_nonempty(s: Seq<char>, c: char)
    ensures
        split_all(s, c).len() > 0,
{
}

/// The characters of `s`, in order.
pub fn to_chars(s: &str) -> (out: Vec<char>)
    ensures
        out@ == s@,
{
    let mut out: Vec<char> = Vec::new();
    for c in it: s.chars()
        invariant
            out@ == s@.take(it.index()),
            it.seq() == s@,
    {
        out.push(c);
        assert(s@.take(it.index() + 1) =~= s@.take(it.index()).push(s@[it.index()]));
    }
    assert(s@.take(s@.len() as int) =~= s@);
    out
}

/// The string made of the characters `chars[from..to]`.
pub fn string_of(chars: &[char], from: usize, to: usize) -> (s: String)
    requires
        from <= to <= chars@.len(),
    ensures
        s@ == chars@.subrange(from as int, to as int),
{
    let mut s = String::new();
    let mut i: usize = from;
    while i < to
        invariant
            from <= i <= to <= chars@.len(),
            s@ == chars@.subrange(from as int, i as int),
        decreases to - i,
    {
        s.push(chars[i]);
        i = i + 1;
        assert(s@ =~= chars@.subrange(from as int, i as int));
    }
    s
}

/// A copy of the text.
pub fn owned(s: &str) -> (out: String)
    ensures
        out@ == s@,
{
    String::from_str(s)
}

/// Whether the two texts are the same.
pub fn same(a: &str, b: &str) -> (r: bool)
    ensures
        r == (a@ == b@),
{
    let x = to_chars(a);
    let y = to_chars(b);
    same_chars(x.as_slice(), y.as_slice())
}

/// Whether the two texts are the same.
pub fn same_chars(x: &[char], y: &[char]) -> (r: bool)
    ensures
        r == (x@ == y@),
{
    if x.len() != y.len() {
        return false;
    }
    let mut i: usize = 0;
    while i < x.len()
        invariant
            i <= x@.len(),
            x@.len() == y@.len(),
            forall|k: int| 0 <= k < i ==> x@[k] == y@[k],
        decreases x@.len() - i,
    {
        if x[i] != y[i] {
            assert(x@[i as int] != y@[i as int]);
            return false;
        }
        i = i + 1;
    }
    assert(x@ =~= y@);
    true
}

/// Whether the texts are the same but for the case of ASCII letters.
pub fn same_ignoring_case(a: &str, b: &str) -> (r: bool)
    ensures
        r == (lowered(a@) == lowered(b@)),
{
    let x = to_lower(a);
    let y = to_lower(b);
    same(x.as_str(), y.as_str())
}

/// The text with ASCII letters in lower case.
pub fn to_lower(s: &str) -> (out: String)
    ensures
        out@ == lowered(s@),
{
    let chars = to_chars(s);
    let mut out = String::new();
    let mut i: usize = 0;
    while i < chars.len()
        invariant
            i <= chars@.len(),
            chars@ == s@,
            out@ == lowered(s@.take(i as int)),
        decreases chars@.len() - i,
    {
        out.push(char_lower(chars[i]));
        i = i + 1;
        assert(out@ =~= lowered(s@.take(i as int)));
    }
    assert(s@.take(s@.len() as int) =~= s@);
    out
}

/// Whether `s` starts with `p`.
pub fn starts_with(s: &str, p: &str) -> (r: bool)
    ensures
        r == has_prefix(s@, p@),
{
    let n: usize = p.unicode_len();
    if s.unicode_len() < n {
        return false;
    }
    same(s.substring_char(0, n), p)
}

/// Whether `s` ends with `p`.
pub fn ends_with(s: &str, p: &str) -> (r: bool)
    ensures
        r == has_suffix(s@, p@),
{
    let n: usize = p.unicode_len();
    let m: usize = s.unicode_len();
    if m < n {
        return false;
    }
    same(s.substring_char(m - n, m), p)
}

/// What follows the prefix `p`, if `s` starts with it.
pub fn strip_prefix<'a>(s: &'a str, p: &str) -> (r: Option<&'a str>)
    ensures
        match r {
            Some(t) => has_prefix(s@, p@) && t@ == s@.skip(p@.len() as int),
            None => !has_prefix(s@, p@),
        },
{
    if starts_with(s, p) {
        let n: usize = p.unicode_len();
        let m: usize = s.unicode_len();
        Some(s.substring_char(n, m))
    } else {
        None
    }
}

/// Whether `t` stands somewhere in `s`.
pub fn contains(s: &str, t: &str) -> (r: bool)
    ensures
        r == contains_text(s@, t@),
{
    let n: usize = t.unicode_len();
    let m: usize = s.unicode_len();
    if m < n {
        return false;
    }
    let mut i: usize = 0;
    while i <= m - n
        invariant
            n <= m,
            n == t@.len(),
            m == s@.len(),
            i <= m - n + 1,
            forall|k: int| 0 <= k < i ==> #[trigger] s@.subrange(k, k + t@.len()) != t@,
        decreases m - n + 1 - i,
    {
        if same(s.substring_char(i, i + n), t) {
            assert(s@.subrange(i as int, i + t@.len()) == t@);
            return true;
        }
        if i == m - n {
            assert(forall|k: int| 0 <= k <= m - n ==> #[trigger] s@.subrange(k, k + t@.len()) != t@);
            return false;
        }
        i = i + 1;
    }
    false
}

/// The place of the first `c` at or behind `from`, or the end.
pub fn find_char(chars: &[char], c: char, from: usize) -> (r: usize)
    requires
        from <= chars@.len(),
    ensures
        r == find_from(chars@, c, from as int),
        from <= r <= chars@.len(),
{
    let mut i: usize = from;
    while i < chars.len() && chars[i] != c
        invariant
            from <= i <= chars@.len(),
            find_from(chars@, c, from as int) == find_from(chars@, c, i as int),
        decreases chars@.len() - i,
    {
        i = i + 1;
    }
    i
}

/// The text without leading white space.
pub fn trim_start(s: &str) -> (r: &str)
    ensures
        r@ == trimmed_start(s@),
{
    let chars = to_chars(s);
    let n: usize = chars.len();
    let mut a: usize = 0;
    proof {
        assert(s@.skip(0) =~= s@);
    }
    while a < n && char_is_space(chars[a])
        invariant
            a <= n,
            n == chars@.len(),
            chars@ == s@,
            trimmed_start(s@) == trimmed_start(s@.skip(a as int)),
        decreases n - a,
    {
        proof {
            assert(s@.skip(a as int).skip(1) =~= s@.skip(a as int + 1));
        }
        a = a + 1;
    }
    proof {
        assert(s@.skip(a as int) =~= s@.subrange(a as int, n as int));
    }
    s.substring_char(a, n)
}

/// The text without trailing white space.
pub fn trim_end(s: &str) -> (r: &str)
    ensures
        r@ == trimmed_end(s@),
{
    let chars = to_chars(s);
    let mut b: usize = chars.len();
    proof {
        assert(s@.take(s@.len() as int) =~= s@);
    }
    while b > 0 && char_is_space(chars[b - 1])
        invariant
            b <= chars@.len(),
            chars@ == s@,
            trimmed_end(s@) == trimmed_end(s@.take(b as int)),
        decreases b,
    {
        proof {
            assert(s@.take(b as int).drop_last() =~= s@.take(b as int - 1));
        }
        b = b - 1;
    }
    proof {
        assert(s@.take(b as int) =~= s@.subrange(0, b as int));
    }
    s.substring_char(0, b)
}

/// The text without leading and trailing white space.
pub fn trim(s: &str) -> (r: &str)
    ensures
        r@ == trimmed(s@),
{
    trim_end(trim_start(s))
}

/// The two parts around the first `c`.
pub fn split_once<'a>(s: &'a str, c: char) -> (r: Option<(&'a str, &'a str)>)
    ensures
        match r {
            Some((a, b)) => split_first(s@, c) == Some((a@, b@)),
            None => split_first(s@, c) is None,
        },
{
    let chars = to_chars(s);
    let i: usize = find_char(chars.as_slice(), c, 0);
    if i < chars.len() {
        let n: usize = chars.len();
        proof {
            assert(s@.take(i as int) =~= s@.subrange(0, i as int));
            assert(s@.skip(i as int + 1) =~= s@.subrange(i as int + 1, n as int));
        }
        Some((s.substring_char(0, i), s.substring_char(i + 1, n)))
    } else {
        None
    }
}

/// The two parts around the last `c`.
pub fn rsplit_once<'a>(s: &'a str, c: char) -> (r: Option<(&'a str, &'a str)>)
    ensures
        match r {
            Some((a, b)) => split_last(s@, c) == Some((a@, b@)),
            None => split_last(s@, c) is None,
        },
{
    let chars = to_chars(s);
    let n: usize = chars.len();
    let mut end: usize = n;
    while end > 0 && chars[end - 1] != c
        invariant
            end <= n,
            n == chars@.len(),
            chars@ == s@,
            rfind_before(s@, c, n as int) == rfind_before(s@, c, end as int),
        decreases end,
    {
        end = end - 1;
    }
    if end > 0 {
        proof {
            assert(s@.take(end as int - 1) =~= s@.subrange(0, end as int - 1));
            assert(s@.skip(end as int) =~= s@.subrange(end as int, n as int));
        }
        Some((s.substring_char(0, end - 1), s.substring_char(end, n)))
    } else {
        None
    }
}

/// The views of a sequence of texts.
pub open spec fn texts(v: Seq<String>) -> Seq<Seq<char>> {
    Seq::new(v.len(), |i: int| v[i]@)
}

/// The views of a sequence of texts.
pub open spec fn str_views(v: Seq<&str>) -> Seq<Seq<char>> {
    Seq::new(v.len(), |i: int| v[i]@)
}

/// The parts of the text between occurrences of `c`.
pub fn split<'a>(s: &'a str, c: char) -> (parts: Vec<&'a str>)
    ensures
        str_views(parts@) == split_all(s@, c),
{
    let chars = to_chars(s);
    let n: usize = chars.len();
    let mut parts: Vec<&'a str> = Vec::new();
    let mut at: usize = 0;
    proof {
        assert(s@.skip(0) =~= s@);
        assert(str_views(parts@) + split_all(s@, c) =~= split_all(s@, c));
    }
    loop
        invariant
            at <= n,
            n == chars@.len(),
            chars@ == s@,
            str_views(parts@) + split_all(s@.skip(at as int), c) == split_all(s@, c),
        decreases n - at,
    {
        let i: usize = find_char(chars.as_slice(), c, at);
        let ghost rest = s@.skip(at as int);
        let ghost done = str_views(parts@);
        proof {
            lemma_find_skip(s@, c, at as int, 0);
            lemma_find_from(rest, c, 0);
        }
        let part = s.substring_char(at, i);
        parts.push(part);
        proof {
            assert(part@ =~= rest.take(i - at));
            assert(str_views(parts@) =~= done + seq![part@]);
        }
        if i < n {
            proof {
                assert(rest.skip(i - at + 1) =~= s@.skip(i as int + 1));
                assert(str_views(parts@) + split_all(s@.skip(i as int + 1), c) =~= done + (seq![
                    part@,
                ] + split_all(s@.skip(i as int + 1), c)));
            }
            at = i + 1;
        } else {
            proof {
                assert(rest.take(i - at) =~= rest);
            }
            return parts;
        }
    }
}

pub proof fn lemma_find_skip(s: Seq<char>, c: char, at: int, i: int)
    requires
        0 <= at <= s.len(),
        0 <= i <= s.len() - at,
    ensures
        find_from(s, c, at + i) == at + find_from(s.skip(at), c, i),
    decreases s.len() - at - i,
{
    if i < s.len() - at && s[at + i] != c {
        lemma_find_skip(s, c, at, i + 1);
    }
}

proof fn lemma_word_end_skip(s: Seq<char>, at: int, i: int)
    requires
        0 <= at <= s.len(),
        0 <= i <= s.len() - at,
    ensures
        word_end(s, at + i) == at + word_end(s.skip(at), i),
    decreases s.len() - at - i,
{
    if i < s.len() - at && !is_space(s[at + i]) {
        lemma_word_end_skip(s, at, i + 1);
    }
}

/// The words of the text.
pub fn split_words<'a>(s: &'a str) -> (out: Vec<&'a str>)
    ensures
        str_views(out@) == words(s@),
{
    let chars = to_chars(s);
    let n: usize = chars.len();
    let mut out: Vec<&'a str> = Vec::new();
    let mut at: usize = 0;
    proof {
        assert(s@.skip(0) =~= s@);
        assert(str_views(out@) + words(s@) =~= words(s@));
    }
    while at < n
        invariant
            at <= n,
            n == chars@.len(),
            chars@ == s@,
            str_views(out@) + words(s@.skip(at as int)) == words(s@),
        decreases n - at,
    {
        let ghost rest = s@.skip(at as int);
        if char_is_space(chars[at]) {
            proof {
                assert(rest.skip(1) =~= s@.skip(at as int + 1));
            }
            at = at + 1;
        } else {
            let ghost done = str_views(out@);
            let mut e: usize = at + 1;
            while e < n && !char_is_space(chars[e])
                invariant
                    at < e <= n,
                    n == chars@.len(),
                    chars@ == s@,
                    word_end(s@, at + 1) == word_end(s@, e as int),
                decreases n - e,
            {
                e = e + 1;
            }
            let word = s.substring_char(at, e);
            out.push(word);
            proof {
                lemma_word_end_skip(s@, at as int, 1);
                assert(word@ =~= rest.take(e - at));
                assert(rest.skip(e - at) =~= s@.skip(e as int));
                assert(str_views(out@) =~= done + seq![word@]);
                assert(str_views(out@) + words(s@.skip(e as int)) =~= done + (seq![word@] + words(
                    s@.skip(e as int),
                )));
            }
            at = e;
        }
    }
    proof {
        assert(s@.skip(n as int) =~= Seq::<char>::empty());
        assert(str_views(out@) + words(s@.skip(n as int)) =~= str_views(out@));
    }
    out
}

// ---------------------------------------------------------------------------
// Numbers
// ---------------------------------------------------------------------------

/// The character of a digit.
pub open spec fn digit_char(d: int) -> char {
    (d + 48) as u8 as char
}

/// The digits of `n` in base ten, without leading zeros.
pub open spec fn dec(n: nat) -> Seq<char>
    decreases n,
{
    if n < 10 {
        seq![digit_char(n as int)]
    } else {
        dec(n / 10).push(digit_char((n % 10) as int))
    }
}

/// `n` in base ten, with zeros in front up to `width` digits.
pub open spec fn dec_padded(n: nat, width: nat) -> Seq<char> {
    if dec(n).len() >= width {
        dec(n)
    } else {
        Seq::new((width - dec(n).len()) as nat, |i: int| '0') + dec(n)
    }
}

/// The lower-case character of a hexadecimal digit.
pub open spec fn hex_char(d: int) -> char {
    if d < 10 {
        (d + 48) as u8 as char
    } else {
        (d + 87) as u8 as char
    }
}

/// The last `width` digits of `n` in base sixteen.
pub open spec fn hex_fixed(n: nat, width: nat) -> Seq<char>
    decreases width,
{
    if width == 0 {
        Seq::empty()
    } else {
        hex_fixed(n / 16, (width - 1) as nat).push(hex_char((n % 16) as int))
    }
}

/// Appends `n` in base ten.
pub fn push_dec(out: &mut String, n: u64)
    ensures
        final(out)@ == old(out)@ + dec(n as nat),
    decreases n,
{
    if n >= 10 {
        push_dec(out, n / 10);
    }
    out.push(((n % 10) as u8 + 48) as char);
    assert(out@ =~= old(out)@ + dec(n as nat));
}

/// `n` in base ten.
pub fn dec_string(n: u64) -> (s: String)
    ensures
        s@ == dec(n as nat),
{
    let mut s = String::new();
    push_dec(&mut s, n);
    assert(s@ =~= dec(n as nat));
    s
}

/// Appends `n` in base ten, with zeros in front up to `width` digits.
pub fn push_dec_padded(out: &mut String, n: u64, width: usize)
    ensures
        final(out)@ == old(out)@ + dec_padded(n as nat, width as nat),
{
    let digits = dec_string(n);
    let len: usize = digits.as_str().unicode_len();
    let mut k: usize = len;
    let ghost start = out@;
    while k < width
        invariant
            len == dec(n as nat).len(),
            len <= k,
            k <= width || k == len,
            out@ == start + Seq::new((k - len) as nat, |i: int| '0'),
        decreases width - k,
    {
        out.push('0');
        k = k + 1;
        assert(out@ =~= start + Seq::new((k - len) as nat, |i: int| '0'));
    }
    out.append(digits.as_str());
    assert(out@ =~= start + dec_padded(n as nat, width as nat));
}

/// The number whose digits in base ten these are.
pub open spec fn ten_value(digits: Seq<u8>) -> nat
    decreases digits.len(),
{
    if digits.len() == 0 {
        0
    } else {
        10 * ten_value(digits.drop_last()) + digits.last() as nat
    }
}

/// These are digits in base ten, without a zero in front.
pub open spec fn ten_digits(digits: Seq<u8>) -> bool {
    &&& forall|i: int| 0 <= i < digits.len() ==> #[trigger] digits[i] < 10
    &&& digits.len() > 0 ==> digits[0] > 0
}

fn digits_of(n: u64) -> (digits: Vec<u8>)
    ensures
        ten_digits(digits@),
        ten_value(digits@) == n,
    decreases n,
{
    if n == 0 {
        return Vec::new();
    }
    let mut digits = digits_of(n / 10);
    let ghost front = digits@;
    digits.push((n % 10) as u8);
    assert(digits@.drop_last() =~= front);
    digits
}

/// The first `n` digits, doubled, and a carry.
fn doubled_digits(digits: &Vec<u8>, n: usize, carry: u8) -> (out: Vec<u8>)
    requires
        n <= digits@.len(),
        carry <= 1,
        ten_digits(digits@),
    ensures
        ten_digits(out@),
        ten_value(out@) == 2 * ten_value(digits@.take(n as int)) + carry,
    decreases n,
{
    if n == 0 {
        let mut out: Vec<u8> = Vec::new();
        if carry == 1 {
            out.push(1);
            assert(ten_value(out@.drop_last()) == 0);
        }
        return out;
    }
    let d: u8 = 2 * digits[n - 1] + carry;
    let mut out = doubled_digits(digits, n - 1, d / 10);
    let ghost front = out@;
    proof {
        let part = digits@.take(n as int);
        assert(part.drop_last() =~= digits@.take(n - 1));
        assert(part.last() == digits@[n - 1]);
        if front.len() == 0 && n > 1 {
            lemma_ten_value_positive(digits@.take(n - 1));
        }
    }
    out.push(d % 10);
    assert(out@.drop_last() =~= front);
    out
}

proof fn lemma_ten_value_positive(digits: Seq<u8>)
    requires
        ten_digits(digits),
        digits.len() > 0,
    ensures
        ten_value(digits) > 0,
    decreases digits.len(),
{
    if digits.len() > 1 {
        let front = digits.drop_last();
        assert(front[0] == digits[0]);
        assert(ten_digits(front)) by {
            assert forall|i: int| 0 <= i < front.len() implies #[trigger] front[i] < 10 by {
                assert(front[i] == digits[i]);
            }
        }
        lemma_ten_value_positive(front);
    }
}

proof fn lemma_dec_of_digits(digits: Seq<u8>)
    requires
        ten_digits(digits),
        digits.len() > 0,
    ensures
        dec(ten_value(digits)) == digits.map_values(|d: u8| digit_char(d as int)),
    decreases digits.len(),
{
    let chars = digits.map_values(|d: u8| digit_char(d as int));
    let front = digits.drop_last();
    assert(ten_digits(front)) by {
        assert forall|i: int| 0 <= i < front.len() implies #[trigger] front[i] < 10 by {
            assert(front[i] == digits[i]);
        }
        if front.len() > 0 {
            assert(front[0] == digits[0]);
        }
    }
    assert(digits.last() < 10);
    if digits.len() > 1 {
        lemma_ten_value_positive(front);
        lemma_dec_of_digits(front);
        assert(chars =~= front.map_values(|d: u8| digit_char(d as int)).push(
            digit_char(digits.last() as int),
        ));
        assert(ten_value(digits) / 10 == ten_value(front));
        assert(ten_value(digits) % 10 == digits.last());
    } else {
        assert(ten_value(front) == 0);
        assert(chars =~= seq![digit_char(digits[0] as int)]);
    }
}

/// Appends `n`, doubled `k` times, in base ten.
pub fn push_dec_doubled(out: &mut String, n: u64, k: u64)
    requires
        n > 0,
    ensures
        final(out)@ == old(out)@ + dec(n as nat * pow2(k as nat)),
{
    proof {
        lemma2_to64();
    }
    let mut digits = digits_of(n);
    let mut i: u64 = 0;
    assert(n as nat * 1 == n);
    while i < k
        invariant
            i <= k,
            ten_digits(digits@),
            ten_value(digits@) == n as nat * pow2(i as nat),
        decreases k - i,
    {
        proof {
            lemma_pow2_unfold((i + 1) as nat);
            let p = pow2(i as nat);
            assert(n as nat * (2 * p) == 2 * (n as nat * p)) by (nonlinear_arith);
            assert(digits@.take(digits@.len() as int) =~= digits@);
        }
        digits = doubled_digits(&digits, digits.len(), 0);
        i = i + 1;
    }
    proof {
        lemma_pow2_pos(k as nat);
        assert(n as nat * pow2(k as nat) > 0) by (nonlinear_arith)
            requires
                n > 0,
                pow2(k as nat) > 0,
        ;
        lemma_dec_of_digits(digits@);
    }
    let ghost start = out@;
    let ghost chars = digits@.map_values(|d: u8| digit_char(d as int));
    let mut j: usize = 0;
    assert(start + chars.take(0) =~= start);
    while j < digits.len()
        invariant
            j <= digits@.len(),
            ten_digits(digits@),
            chars == digits@.map_values(|d: u8| digit_char(d as int)),
            out@ == start + chars.take(j as int),
        decreases digits@.len() - j,
    {
        assert(digits@[j as int] < 10);
        out.push((digits[j] + 48) as char);
        j = j + 1;
        assert(out@ =~= start + chars.take(j as int));
    }
    assert(chars.take(j as int) =~= chars);
}

/// Appends the last `width` digits of `n` in base sixteen.
pub fn push_hex_fixed(out: &mut String, n: u64, width: usize)
    ensures
        final(out)@ == old(out)@ + hex_fixed(n as nat, width as nat),
    decreases width,
{
    if width > 0 {
        push_hex_fixed(out, n / 16, width - 1);
        let d: u8 = (n % 16) as u8;
        out.push(if d < 10 { (d + 48) as char } else { (d + 87) as char });
    }
    assert(out@ =~= old(out)@ + hex_fixed(n as nat, width as nat));
}

/// The value of a digit in base sixteen; none for any other character.
pub open spec fn digit_value(c: char, radix: int) -> Option<int> {
    let v = if is_digit(c) {
        c as int - 48
    } else if 'a' <= c && c <= 'f' {
        c as int - 87
    } else if 'A' <= c && c <= 'F' {
        c as int - 55
    } else {
        99
    };
    if v < radix {
        Some(v)
    } else {
        None
    }
}

/// The number that the digits `s` denote; none where `s` holds another
/// character.
pub open spec fn digits_value(s: Seq<char>, radix: int) -> Option<int>
    decreases s.len(),
{
    if s.len() == 0 {
        Some(0)
    } else {
        match (digits_value(s.drop_last(), radix), digit_value(s.last(), radix)) {
            (Some(n), Some(d)) => Some(n * radix + d),
            _ => None,
        }
    }
}

/// The digits of a number in text: what follows an optional plus sign.
pub open spec fn unsigned_digits(s: Seq<char>) -> Seq<char> {
    if s.len() > 0 && s[0] == '+' {
        s.skip(1)
    } else {
        s
    }
}

/// The unsigned number that the text denotes: at least one digit, nothing but
/// digits behind an optional plus sign, and a value of at most `max`.
pub open spec fn parsed(s: Seq<char>, radix: int, max: int) -> Option<int> {
    let digits = unsigned_digits(s);
    match digits_value(digits, radix) {
        Some(n) => if digits.len() > 0 && n <= max {
            Some(n)
        } else {
            None
        },
        None => None,
    }
}

proof fn lemma_digits_monotone(s: Seq<char>, k: int, radix: int)
    requires
        0 <= k <= s.len(),
        radix == 10 || radix == 16,
    ensures
        digits_value(s.take(k), radix) is None ==> digits_value(s, radix) is None,
        digits_value(s, radix) matches Some(n) ==> digits_value(s.take(k), radix) matches Some(m)
            && 0 <= m <= n,
    decreases s.len(),
{
    if s.len() == k {
        assert(s.take(k) =~= s);
        if s.len() > 0 {
            lemma_digits_monotone(s.drop_last(), 0, radix);
        }
    } else {
        lemma_digits_monotone(s.drop_last(), k, radix);
        assert(s.drop_last().take(k) =~= s.take(k));
    }
}

/// The unsigned number that the text denotes in base ten or sixteen.
pub fn parse_unsigned(s: &str, radix: u64, max: u64) -> (r: Option<u64>)
    requires
        radix == 10 || radix == 16,
    ensures
        match r {
            Some(n) => parsed(s@, radix as int, max as int) == Some(n as int),
            None => parsed(s@, radix as int, max as int) is None,
        },
{
    let chars = to_chars(s);
    let start: usize = if chars.len() > 0 && chars[0] == '+' { 1 } else { 0 };
    let ghost digits = unsigned_digits(s@);
    if start >= chars.len() {
        return None;
    }
    let mut n: u64 = 0;
    let mut i: usize = start;
    proof {
        assert(digits.take(0) =~= Seq::<char>::empty());
    }
    while i < chars.len()
        invariant
            radix == 10 || radix == 16,
            start <= i <= chars@.len(),
            start < chars@.len(),
            start <= 1,
            chars@ == s@,
            digits == unsigned_digits(s@),
            digits =~= s@.skip(start as int),
            n <= max,
            digits_value(digits.take(i - start), radix as int) == Some(n as int),
        decreases chars@.len() - i,
    {
        let c = chars[i];
        proof {
            assert(digits.take(i - start + 1).drop_last() =~= digits.take(i - start));
            assert(digits.take(i - start + 1).last() == c);
            lemma_digits_monotone(digits, i - start + 1, radix as int);
        }
        let d: u64 = if char_is_digit(c) {
            (c as u64) - 48
        } else if 'a' <= c && c <= 'f' {
            (c as u64) - 87
        } else if 'A' <= c && c <= 'F' {
            (c as u64) - 55
        } else {
            99
        };
        if d >= radix {
            return None;
        }
        let wide: u128 = (n as u128) * (radix as u128) + d as u128;
        if wide > max as u128 {
            return None;
        }
        n = wide as u64;
        i = i + 1;
    }
    proof {
        assert(digits.take(digits.len() as int) =~= digits);
    }
    Some(n)
}

proof fn lemma_dec_digits(n: nat)
    ensures
        dec(n).len() > 0,
        is_digit(dec(n)[0]),
        digits_value(dec(n), 10) == Some(n as int),
    decreases n,
{
    if n < 10 {
        assert(dec(n).drop_last() =~= Seq::<char>::empty());
        reveal_with_fuel(digits_value, 2);
    } else {
        lemma_dec_digits(n / 10);
        assert(dec(n).drop_last() =~= dec(n / 10));
    }
}

/// Reading a number that was written in base ten gives it back.
pub proof fn law_dec_reads_back(n: nat, max: nat)
    requires
        n <= max,
    ensures
        parsed(dec(n), 10, max as int) == Some(n as int),
{
    lemma_dec_digits(n);
}

/// A number above the limit is no number, and neither is a text that holds
/// anything but digits, or none at all.
pub proof fn law_numbers_are_limited(n: nat, max: nat, s: Seq<char>, at: int)
    ensures
        n > max ==> parsed(dec(n), 10, max as int) is None,
        parsed(Seq::empty(), 10, max as int) is None,
        0 < at < s.len() && !is_digit(s[at]) ==> parsed(s, 10, max as int) is None,
{
    lemma_dec_digits(n);
    let e = Seq::<char>::empty();
    assert(unsigned_digits(e).len() == 0);
    if 0 < at < s.len() && !is_digit(s[at]) {
        let d = unsigned_digits(s);
        let k = at - (s.len() - d.len());
        assert(d[k] == s[at]);
        lemma_digits_only(d, k);
    }
}

proof fn lemma_digits_only(s: Seq<char>, at: int)
    requires
        0 <= at < s.len(),
        !is_digit(s[at]),
    ensures
        digits_value(s, 10) is None,
    decreases s.len(),
{
    if at < s.len() - 1 {
        lemma_digits_only(s.drop_last(), at);
    }
}

/// A number in base ten is digits alone.
pub proof fn lemma_dec_is_numeric(n: nat)
    ensures
        dec(n).len() > 0,
        forall|i: int| 0 <= i < dec(n).len() ==> is_digit(#[trigger] dec(n)[i]),
    decreases n,
{
    if n >= 10 {
        lemma_dec_is_numeric(n / 10);
        assert forall|i: int| 0 <= i < dec(n).len() implies is_digit(#[trigger] dec(n)[i]) by {
            if i < dec(n / 10).len() {
                assert(dec(n)[i] == dec(n / 10)[i]);
            }
        }
    }
}

/// A number that was written in base sixteen is read back, whatever the zeros
/// in front of it.
pub proof fn law_hex_reads_back(n: nat, width: nat, max: nat)
    requires
        width > 0,
        n <= max,
        n < vstd::arithmetic::power::pow(16, width),
    ensures
        parsed(hex_fixed(n, width), 16, max as int) == Some(n as int),
{
    lemma_hex_value(n, width);
}

proof fn lemma_hex_value(n: nat, width: nat)
    requires
        n < vstd::arithmetic::power::pow(16, width),
    ensures
        hex_fixed(n, width).len() == width,
        width > 0 ==> digits_value(hex_fixed(n, width), 16) == Some(n as int),
        width > 0 ==> hex_fixed(n, width)[0] != '+',
    decreases width,
{
    vstd::arithmetic::power::lemma_pow0(16);
    if width > 0 {
        reveal(vstd::arithmetic::power::pow);
        lemma_hex_value(n / 16, (width - 1) as nat);
        let s = hex_fixed(n, width);
        assert(s.drop_last() =~= hex_fixed(n / 16, (width - 1) as nat));
        if width == 1 {
            assert(s.drop_last() =~= Seq::<char>::empty());
            reveal_with_fuel(digits_value, 2);
        }
    }
}

/// A number of fixed width has that width.
pub proof fn lemma_hex_len(n: nat, width: nat)
    ensures
        hex_fixed(n, width).len() == width,
    decreases width,
{
    if width > 0 {
        lemma_hex_len(n / 16, (width - 1) as nat);
    }
}

/// A number in base sixteen holds digits and letters alone.
pub proof fn lemma_hex_chars(n: nat, width: nat)
    ensures
        hex_fixed(n, width).len() == width,
        forall|i: int|
            0 <= i < width ==> #[trigger] hex_fixed(n, width)[i] != ';' && !is_space(
                hex_fixed(n, width)[i],
            ),
    decreases width,
{
    if width > 0 {
        lemma_hex_chars(n / 16, (width - 1) as nat);
        let s = hex_fixed(n, width);
        assert forall|i: int| 0 <= i < width implies #[trigger] s[i] != ';' && !is_space(s[i]) by {
            if i < width - 1 {
                assert(s[i] == hex_fixed(n / 16, (width - 1) as nat)[i]);
            }
        }
    }
}

/// Different numbers are different texts.
pub proof fn lemma_dec_injective(m: nat, n: nat)
    ensures
        dec(m) == dec(n) ==> m == n,
{
    let top = if m > n {
        m
    } else {
        n
    };
    law_dec_reads_back(m, top);
    law_dec_reads_back(n, top);
}

proof fn lemma_absent(s: Seq<char>, c: char, i: int)
    requires
        0 <= i <= s.len(),
        forall|k: int| i <= k < s.len() ==> #[trigger] s[k] != c,
    ensures
        find_from(s, c, i) == s.len(),
    decreases s.len() - i,
{
    if i < s.len() {
        lemma_absent(s, c, i + 1);
    }
}

proof fn lemma_found_at(s: Seq<char>, c: char, i: int, at: int)
    requires
        0 <= i <= at < s.len(),
        s[at] == c,
        forall|k: int| i <= k < at ==> #[trigger] s[k] != c,
    ensures
        find_from(s, c, i) == at,
    decreases at - i,
{
    if i < at {
        lemma_found_at(s, c, i + 1, at);
    }
}

/// A text without the separator is one part.
pub proof fn lemma_split_whole(s: Seq<char>, c: char)
    requires
        forall|k: int| 0 <= k < s.len() ==> #[trigger] s[k] != c,
    ensures
        split_all(s, c) == seq![s],
        split_first(s, c) is None,
{
    lemma_absent(s, c, 0);
}

/// What stands behind another separator is one part more.
pub proof fn lemma_split_joined(a: Seq<char>, c: char, b: Seq<char>)
    requires
        forall|k: int| 0 <= k < b.len() ==> #[trigger] b[k] != c,
    ensures
        split_all(a + seq![c] + b, c) == split_all(a, c).push(b),
    decreases a.len(),
{
    let s = a + seq![c] + b;
    let i = find_from(a, c, 0);
    lemma_find_from(a, c, 0);
    if i < a.len() {
        assert forall|k: int| 0 <= k < i implies #[trigger] s[k] != c by {
            assert(s[k] == a[k]);
        }
        lemma_found_at(s, c, 0, i);
        let rest = a.skip(i + 1);
        assert(s.skip(i + 1) =~= rest + seq![c] + b);
        assert(s.take(i) =~= a.take(i));
        lemma_split_joined(rest, c, b);
        assert((seq![a.take(i)] + split_all(rest, c)).push(b) =~= seq![a.take(i)] + split_all(
            rest,
            c,
        ).push(b));
    } else {
        assert forall|k: int| 0 <= k < a.len() implies #[trigger] s[k] != c by {
            assert(s[k] == a[k]);
        }
        lemma_found_at(s, c, 0, a.len() as int);
        assert(s.take(a.len() as int) =~= a);
        assert(s.skip(a.len() as int + 1) =~= b);
        lemma_split_whole(b, c);
        assert(seq![a] + seq![b] =~= seq![a].push(b));
    }
}

/// The first separator parts a text.
pub proof fn lemma_split_first_at(a: Seq<char>, c: char, b: Seq<char>)
    requires
        forall|k: int| 0 <= k < a.len() ==> #[trigger] a[k] != c,
    ensures
        split_first(a + seq![c] + b, c) == Some((a, b)),
{
    let s = a + seq![c] + b;
    assert forall|k: int| 0 <= k < a.len() implies #[trigger] s[k] != c by {
        assert(s[k] == a[k]);
    }
    lemma_found_at(s, c, 0, a.len() as int);
    assert(s.take(a.len() as int) =~= a);
    assert(s.skip(a.len() as int + 1) =~= b);
}

proof fn lemma_rfound_at(s: Seq<char>, c: char, end: int, at: int)
    requires
        0 <= at < end <= s.len(),
        s[at] == c,
        forall|k: int| at < k < end ==> #[trigger] s[k] != c,
    ensures
        rfind_before(s, c, end) == at,
    decreases end,
{
    if at < end - 1 {
        lemma_rfound_at(s, c, end - 1, at);
    }
}

/// The last separator parts a text.
pub proof fn lemma_split_last_at(a: Seq<char>, c: char, b: Seq<char>)
    requires
        forall|k: int| 0 <= k < b.len() ==> #[trigger] b[k] != c,
    ensures
        split_last(a + seq![c] + b, c) == Some((a, b)),
        rfind_before(a + seq![c] + b, c, (a.len() + 1 + b.len()) as int) == a.len(),
{
    let s = a + seq![c] + b;
    assert forall|k: int| a.len() < k < s.len() implies #[trigger] s[k] != c by {
        assert(s[k] == b[k - a.len() - 1]);
    }
    lemma_rfound_at(s, c, s.len() as int, a.len() as int);
    assert(s.take(a.len() as int) =~= a);
    assert(s.skip(a.len() as int + 1) =~= b);
}

/// A text is split at every separator and nowhere else: joined again, the
/// parts are the text, and no part holds the separator.
pub proof fn law_split_reads_back(parts: Seq<Seq<char>>, c: char)
    requires
        parts.len() > 0,
        forall|i: int, k: int|
            0 <= i < parts.len() && 0 <= k < parts[i].len() ==> #[trigger] parts[i][k] != c,
    ensures
        split_all(joined_by(parts, c), c) == parts,
    decreases parts.len(),
{
    if parts.len() == 1 {
        assert forall|k: int| 0 <= k < parts[0].len() implies #[trigger] parts[0][k] != c by {
        }
        lemma_split_whole(parts[0], c);
        assert(joined_by(parts, c) == parts.last());
        assert(seq![parts[0]] =~= parts);
    } else {
        let init = parts.drop_last();
        assert forall|i: int, k: int|
            0 <= i < init.len() && 0 <= k < init[i].len() implies #[trigger] init[i][k] != c by {
            assert(parts[i][k] != c);
        }
        law_split_reads_back(init, c);
        let b = parts.last();
        assert forall|k: int| 0 <= k < b.len() implies #[trigger] b[k] != c by {
            assert(parts[parts.len() - 1][k] != c);
        }
        lemma_split_joined(joined_by(init, c), c, b);
        assert(init.push(b) =~= parts);
    }
}

/// The parts with a separator between them.
pub open spec fn joined_by(parts: Seq<Seq<char>>, c: char) -> Seq<char>
    decreases parts.len(),
{
    if parts.len() == 0 {
        Seq::empty()
    } else if parts.len() == 1 {
        parts.last()
    } else {
        joined_by(parts.drop_last(), c) + seq![c] + parts.last()
    }
}

/// White space alone.
pub open spec fn all_space(s: Seq<char>) -> bool {
    forall|i: int| 0 <= i < s.len() ==> is_space(#[trigger] s[i])
}

/// Trimming takes off exactly the white space around a text: a text that
/// neither starts nor ends with any comes back from whatever white space is
/// put around it.
pub proof fn law_trim_takes_off_white_space(l: Seq<char>, s: Seq<char>, r: Seq<char>)
    requires
        all_space(l),
        all_space(r),
        s.len() > 0 ==> !is_space(s[0]) && !is_space(s.last()),
    ensures
        trimmed(l + s + r) == s,
        trimmed_end(s + r) == s,
        trimmed_start(l + s) == s,
{
    lemma_trim_end(s, r);
    lemma_trim_start(l, s);
    if s.len() == 0 {
        assert(l + s + r =~= l + r);
        lemma_all_space(l + r);
        assert(s =~= Seq::<char>::empty());
    } else {
        assert(l + s + r =~= l + (s + r));
        assert((s + r)[0] == s[0]);
        lemma_trim_start(l, s + r);
    }
}

proof fn lemma_all_space(s: Seq<char>)
    requires
        all_space(s),
    ensures
        trimmed(s).len() == 0,
        trimmed_start(s).len() == 0,
        trimmed_end(s).len() == 0,
    decreases s.len(),
{
    if s.len() > 0 {
        assert(all_space(s.skip(1))) by {
            assert forall|i: int| 0 <= i < s.skip(1).len() implies is_space(
                #[trigger] s.skip(1)[i],
            ) by {
                assert(is_space(s[i + 1]));
            }
        }
        assert(all_space(s.drop_last())) by {
            assert forall|i: int| 0 <= i < s.drop_last().len() implies is_space(
                #[trigger] s.drop_last()[i],
            ) by {
                assert(is_space(s[i]));
            }
        }
        assert(is_space(s[0]));
        assert(is_space(s[s.len() - 1]));
        lemma_all_space(s.skip(1));
        lemma_all_space(s.drop_last());
    }
}

pub proof fn lemma_trim_end(s: Seq<char>, r: Seq<char>)
    requires
        all_space(r),
        s.len() > 0 ==> !is_space(s.last()),
    ensures
        trimmed_end(s + r) == s,
    decreases r.len(),
{
    let t = s + r;
    if r.len() > 0 {
        assert(is_space(r[r.len() - 1]));
        assert(t.last() == r.last());
        assert(t.drop_last() =~= s + r.drop_last());
        assert(all_space(r.drop_last())) by {
            assert forall|i: int| 0 <= i < r.drop_last().len() implies is_space(
                #[trigger] r.drop_last()[i],
            ) by {
                assert(is_space(r[i]));
            }
        }
        lemma_trim_end(s, r.drop_last());
    } else {
        assert(t =~= s);
    }
}

proof fn lemma_trim_start(l: Seq<char>, s: Seq<char>)
    requires
        all_space(l),
        s.len() > 0 ==> !is_space(s[0]),
    ensures
        trimmed_start(l + s) == s,
    decreases l.len(),
{
    let t = l + s;
    if l.len() > 0 {
        assert(is_space(l[0]));
        assert(t[0] == l[0]);
        assert(t.skip(1) =~= l.skip(1) + s);
        assert(all_space(l.skip(1))) by {
            assert forall|i: int| 0 <= i < l.skip(1).len() implies is_space(
                #[trigger] l.skip(1)[i],
            ) by {
                assert(is_space(l[i + 1]));
            }
        }
        lemma_trim_start(l.skip(1), s);
    } else {
        assert(t =~= s);
    }
}

/// A word of its own.
pub open spec fn is_word(s: Seq<char>) -> bool {
    s.len() > 0 && forall|i: int| 0 <= i < s.len() ==> !is_space(#[trigger] s[i])
}

/// The words of a text, each behind some white space.
pub open spec fn spaced(gaps: Seq<Seq<char>>, ws: Seq<Seq<char>>) -> Seq<char>
    decreases ws.len(),
{
    if ws.len() == 0 {
        Seq::empty()
    } else {
        gaps[0] + ws[0] + spaced(gaps.skip(1), ws.skip(1))
    }
}

/// Words with white space between them, as much as there may be, are read back
/// as those words.
pub proof fn law_words_read_back(gaps: Seq<Seq<char>>, ws: Seq<Seq<char>>)
    requires
        gaps.len() == ws.len(),
        forall|i: int| 0 <= i < ws.len() ==> is_word(#[trigger] ws[i]),
        forall|i: int| 0 <= i < gaps.len() ==> all_space(#[trigger] gaps[i]),
        forall|i: int| 0 < i < gaps.len() ==> (#[trigger] gaps[i]).len() > 0,
    ensures
        words(spaced(gaps, ws)) == ws,
    decreases ws.len(),
{
    if ws.len() == 0 {
        assert(ws =~= Seq::<Seq<char>>::empty());
    } else {
        let g = gaps.skip(1);
        let v = ws.skip(1);
        assert forall|i: int| 0 <= i < v.len() implies is_word(#[trigger] v[i]) by {
            assert(v[i] == ws[i + 1]);
        }
        assert forall|i: int| 0 <= i < g.len() implies all_space(#[trigger] g[i]) by {
            assert(g[i] == gaps[i + 1]);
        }
        assert forall|i: int| 0 < i < g.len() implies (#[trigger] g[i]).len() > 0 by {
            assert(g[i] == gaps[i + 1]);
        }
        law_words_read_back(g, v);
        let rest = spaced(g, v);
        let w = ws[0];
        assert(is_word(w));
        assert(all_space(gaps[0]));
        if v.len() > 0 {
            assert(g[0] == gaps[1]);
            assert(all_space(gaps[1]));
            assert(rest[0] == g[0][0]);
            assert(is_space(gaps[1][0]));
        }
        lemma_word_taken(w, rest);
        lemma_words_behind_space(gaps[0], w + rest);
        assert(gaps[0] + w + rest =~= gaps[0] + (w + rest));
        assert(seq![w] + v =~= ws);
    }
}

proof fn lemma_words_behind_space(l: Seq<char>, s: Seq<char>)
    requires
        all_space(l),
    ensures
        words(l + s) == words(s),
    decreases l.len(),
{
    let t = l + s;
    if l.len() > 0 {
        assert(is_space(l[0]));
        assert(t[0] == l[0]);
        assert(t.skip(1) =~= l.skip(1) + s);
        assert(all_space(l.skip(1))) by {
            assert forall|i: int| 0 <= i < l.skip(1).len() implies is_space(
                #[trigger] l.skip(1)[i],
            ) by {
                assert(is_space(l[i + 1]));
            }
        }
        lemma_words_behind_space(l.skip(1), s);
    } else {
        assert(t =~= s);
    }
}

proof fn lemma_word_taken(w: Seq<char>, rest: Seq<char>)
    requires
        is_word(w),
        rest.len() > 0 ==> is_space(rest[0]),
    ensures
        words(w + rest) == seq![w] + words(rest),
{
    let s = w + rest;
    lemma_word_end_at(s, 1, w.len() as int);
    assert(s[0] == w[0]);
    assert(s.take(w.len() as int) =~= w);
    assert(s.skip(w.len() as int) =~= rest);
}

proof fn lemma_word_end_at(s: Seq<char>, i: int, at: int)
    requires
        0 <= i <= at <= s.len(),
        forall|k: int| i <= k < at ==> !is_space(#[trigger] s[k]),
        at < s.len() ==> is_space(s[at]),
    ensures
        word_end(s, i) == at,
    decreases at - i,
{
    if i < at {
        lemma_word_end_at(s, i + 1, at);
    }
}

/// A letter and its capital are the same in lower case, and nothing else
/// changes.
pub proof fn law_lower_case(s: Seq<char>)
    ensures
        lowered(s).len() == s.len(),
        lowered(lowered(s)) == lowered(s),
        lower('A') == 'a' && lower('Z') == 'z' && lower('M') == 'm',
        forall|c: char| !('A' <= c <= 'Z') ==> #[trigger] lower(c) == c,
        forall|c: char| 'A' <= c <= 'Z' ==> #[trigger] lower(c) as int == c as int + 32,
{
    assert(lowered(lowered(s)) =~= lowered(s));
}

} // verus!
