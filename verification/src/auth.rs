//! Basic credentials.

use base64::Engine;
use vstd::prelude::*;
use crate::text::{has_prefix, is_alnum, is_space, owned, rfind_before, rsplit_once, same};
use crate::text::{split_last, strip_prefix, trim, trimmed, trimmed_end, trimmed_start};

verus! {

/// The text that `base64` writes for bytes in the standard alphabet, padded.
pub uninterp spec fn base64_text(data: Seq<u8>) -> Seq<char>;

/// The bytes that `base64` reads from a text in the standard alphabet; none
/// where the text is not canonical.
pub uninterp spec fn base64_bytes(text: Seq<char>) -> Option<Seq<u8>>;

/// A character of the standard base64 alphabet, or the padding.
pub open spec fn is_base64_char(c: char) -> bool {
    is_alnum(c) || c == '+' || c == '/' || c == '='
}

/// `base64::Engine::encode` with the standard engine: the text is fixed by
/// the bytes, holds only characters of the alphabet and padding, and decodes
/// to the bytes. Longer inputs could exceed the largest allocation.
#[verifier::external_body]
fn base64_encode(data: &[u8]) -> (s: String)
    requires
        data@.len() <= MAX_CREDENTIAL,
    ensures
        s@ == base64_text(data@),
        forall|i: int| 0 <= i < s@.len() ==> is_base64_char(#[trigger] s@[i]),
        base64_bytes(s@) == Some(data@),
{
    base64::engine::general_purpose::STANDARD.encode(data)
}

/// `base64::Engine::decode` with the standard engine: the bytes, or none
/// where the text is not valid.
#[verifier::external_body]
fn base64_decode(text: &str) -> (r: Option<Vec<u8>>)
    ensures
        match r {
            Some(v) => base64_bytes(text@) == Some(v@),
            None => base64_bytes(text@) is None,
        },
{
    base64::engine::general_purpose::STANDARD.decode(text).ok()
}

/// `String::from_utf8`: the text of valid UTF-8; none for any other bytes.
#[verifier::external_body]
pub(crate) fn utf8_text(data: Vec<u8>) -> (r: Option<String>)
    ensures
        match r {
            Some(s) => vstd::utf8::valid_utf8(data@) && s@ == vstd::utf8::decode_utf8(data@),
            None => !vstd::utf8::valid_utf8(data@),
        },
{
    String::from_utf8(data).ok()
}

/// `user:password` in base64, as it follows `Basic `.
pub open spec fn basic_token(user: Seq<char>, password: Seq<char>) -> Seq<char> {
    base64_text(vstd::utf8::encode_utf8(user + ":"@ + password))
}

/// The longest text that credentials are made of: its base64 form fits into
/// an allocation of any machine.
pub const MAX_CREDENTIAL: usize = 0x5fff_fff0;

/// The credentials of a source, as they follow `Basic `.
pub fn basic_auth(user: &str, password: &str) -> (s: String)
    requires
        vstd::utf8::encode_utf8(user@ + ":"@ + password@).len() <= MAX_CREDENTIAL,
    ensures
        s@ == basic_token(user@, password@),
        forall|i: int| 0 <= i < s@.len() ==> is_base64_char(#[trigger] s@[i]),
        base64_bytes(s@) == Some(vstd::utf8::encode_utf8(user@ + ":"@ + password@)),
{
    let mut text = owned(user);
    text.append(":");
    text.append(password);
    base64_encode(text.as_str().as_bytes())
}

/// What follows the word `Basic` in a credential.
pub open spec fn basic_payload(credential: Seq<char>) -> Option<Seq<char>> {
    if has_prefix(credential, "Basic "@) {
        Some(credential.skip("Basic "@.len() as int))
    } else if has_prefix(credential, "basic "@) {
        Some(credential.skip("basic "@.len() as int))
    } else {
        None
    }
}

/// The password of decoded credentials: what follows the last colon of a
/// UTF-8 text.
pub open spec fn credential_password(decoded: Option<Seq<u8>>) -> Option<Seq<char>> {
    match decoded {
        None => None,
        Some(data) => if vstd::utf8::valid_utf8(data) {
            match split_last(vstd::utf8::decode_utf8(data), ':') {
                Some((_, pass)) => Some(pass),
                None => None,
            }
        } else {
            None
        },
    }
}

/// The password that a credential carries.
pub open spec fn password_of(credential: Seq<char>) -> Option<Seq<char>> {
    match basic_payload(credential) {
        None => None,
        Some(b64) => credential_password(base64_bytes(trimmed(b64))),
    }
}

/// The password of decoded credentials is this one.
pub fn decoded_password_is(decoded: Option<Vec<u8>>, password: &str) -> (r: bool)
    ensures
        r == (credential_password(
            match decoded {
                Some(v) => Some(v@),
                None => None,
            },
        ) == Some(password@)),
{
    match decoded {
        None => false,
        Some(data) => match utf8_text(data) {
            None => false,
            Some(text) => match rsplit_once(text.as_str(), ':') {
                None => false,
                Some((_, pass)) => same(pass, password),
            },
        },
    }
}

/// Whether `Basic` credentials carry the password; the user name does not
/// count.
pub fn basic_password_matches(credential: &str, password: &str) -> (r: bool)
    ensures
        r == (password_of(credential@) == Some(password@)),
{
    let b64 = match strip_prefix(credential, "Basic ") {
        Some(b) => b,
        None => match strip_prefix(credential, "basic ") {
            Some(b) => b,
            None => return false,
        },
    };
    decoded_password_is(base64_decode(trim(b64)), password)
}

// ---------------------------------------------------------------------------
// Laws
// ---------------------------------------------------------------------------

proof fn lemma_trim_is_identity(s: Seq<char>)
    requires
        forall|i: int| 0 <= i < s.len() ==> !is_space(#[trigger] s[i]),
    ensures
        trimmed(s) == s,
{
    assert(trimmed_start(s) == s);
    if s.len() > 0 {
        assert(s.last() == s[s.len() - 1]);
    }
    assert(trimmed_end(s) == s);
}

proof fn lemma_rfind_tail(s: Seq<char>, c: char, at: int, end: int)
    requires
        0 <= at < end <= s.len(),
        s[at] == c,
        forall|k: int| at < k < end ==> #[trigger] s[k] != c,
    ensures
        rfind_before(s, c, end) == at,
    decreases end,
{
    if end - 1 > at {
        lemma_rfind_tail(s, c, at, end - 1);
    }
}

/// A source that signs in with [`basic_auth`] is let in by
/// [`basic_password_matches`], whatever its user name, provided that the
/// password holds no colon. `token` is what `basic_auth` returned.
pub proof fn law_basic_auth_is_accepted(user: Seq<char>, password: Seq<char>, token: Seq<char>)
    requires
        forall|i: int| 0 <= i < token.len() ==> is_base64_char(#[trigger] token[i]),
        base64_bytes(token) == Some(vstd::utf8::encode_utf8(user + ":"@ + password)),
        forall|i: int| 0 <= i < password.len() ==> #[trigger] password[i] != ':',
    ensures
        password_of("Basic "@ + token) == Some(password),
{
    let credential = "Basic "@ + token;
    let text = user + ":"@ + password;
    assert(credential.take("Basic "@.len() as int) =~= "Basic "@);
    assert(credential.skip("Basic "@.len() as int) =~= token);
    assert forall|i: int| 0 <= i < token.len() implies !is_space(#[trigger] token[i]) by {
        assert(is_base64_char(token[i]));
    }
    lemma_trim_is_identity(token);
    vstd::utf8::encode_utf8_valid_utf8(text);
    vstd::utf8::encode_utf8_decode_utf8(text);
    reveal_strlit(":");
    let at = user.len() as int;
    assert(text[at] == ':');
    assert forall|k: int| at < k < text.len() implies #[trigger] text[k] != ':' by {
        assert(text[k] == password[k - at - 1]);
    }
    lemma_rfind_tail(text, ':', at, text.len() as int);
    assert(text.skip(at + 1) =~= password);
}

/// The word in front of a credential counts in both spellings, and white space
/// around the rest does not; what follows the last colon is the password,
/// whatever the user name; a text without a colon, or no text at all, holds no
/// password.
pub proof fn law_passwords(user: Seq<char>, password: Seq<char>, token: Seq<char>, data: Seq<u8>)
    requires
        forall|i: int| 0 <= i < password.len() ==> #[trigger] password[i] != ':',
    ensures
        password_of("basic "@ + token) == password_of("Basic "@ + token),
        credential_password(Some(vstd::utf8::encode_utf8(user + ":"@ + password))) == Some(password),
        credential_password(Some(vstd::utf8::encode_utf8(password))) is None,
        !vstd::utf8::valid_utf8(data) ==> credential_password(Some(data)) is None,
        credential_password(None) is None,
        basic_token(user, password) == base64_text(
            vstd::utf8::encode_utf8(user + seq![':'] + password),
        ),
{
    reveal_strlit("basic ");
    reveal_strlit("Basic ");
    reveal_strlit(":");
    assert(":"@ =~= seq![':']);
    let a = "basic "@ + token;
    let b = "Basic "@ + token;
    assert(a.take(6) =~= "basic "@ && b.take(6) =~= "Basic "@);
    assert(a.skip(6) =~= token && b.skip(6) =~= token);
    assert(a.take(6)[0] == 'b' && "Basic "@[0] == 'B');
    let text = user + ":"@ + password;
    vstd::utf8::encode_utf8_valid_utf8(text);
    vstd::utf8::encode_utf8_decode_utf8(text);
    vstd::utf8::encode_utf8_valid_utf8(password);
    vstd::utf8::encode_utf8_decode_utf8(password);
    crate::text::lemma_split_last_at(user, ':', password);
    lemma_no_colon(password, password.len() as int);
}

proof fn lemma_no_colon(s: Seq<char>, end: int)
    requires
        0 <= end <= s.len(),
        forall|i: int| 0 <= i < s.len() ==> #[trigger] s[i] != ':',
    ensures
        rfind_before(s, ':', end) == -1,
    decreases end,
{
    if end > 0 {
        assert(s[end - 1] != ':');
        lemma_no_colon(s, end - 1);
    }
}

/// A credential of another scheme is never let in.
pub proof fn law_other_schemes_are_refused(credential: Seq<char>, password: Seq<char>)
    requires
        !has_prefix(credential, "Basic "@),
        !has_prefix(credential, "basic "@),
    ensures
        password_of(credential) != Some(password),
{
}

} // verus!
