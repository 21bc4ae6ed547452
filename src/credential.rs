use vstd::prelude::*;

use crate::quota::GitHubAuth;
use crate::text::{colon_index, colon_position, has_colon, is_prefix, same_text, starts_with_text};

verus! {

/// A caller's credential, taken apart: the user name it claims, if any, and
/// the bearer token to show the identity provider.
#[derive(Clone, Debug, PartialEq, Eq)]
pub struct Credential {
    pub username: Option<String>,
    pub token: String,
}

/// What came back from the identity provider's "current user" endpoint.
#[derive(Clone, Debug, PartialEq, Eq)]
pub enum ProviderReply {
    /// The request could not be made or got no answer.
    Unreachable,
    /// The provider answered with a status other than success.
    ErrorStatus,
    /// The provider answered with success and this body.
    Body { bytes: Vec<u8> },
}

/// What the provider's JSON body `b` holds: `None` where it does not parse,
/// else the `login` field where that is a string.
pub uninterp spec fn json_login(b: Seq<u8>) -> Option<Option<Seq<char>>>;

/// A character with the Unicode White_Space property (`char::is_whitespace`).
pub open spec fn is_white_space(c: char) -> bool {
    ||| '\u{9}' <= c <= '\u{D}'
    ||| c == ' '
    ||| c == '\u{85}'
    ||| c == '\u{A0}'
    ||| c == '\u{1680}'
    ||| '\u{2000}' <= c <= '\u{200A}'
    ||| c == '\u{2028}'
    ||| c == '\u{2029}'
    ||| c == '\u{202F}'
    ||| c == '\u{205F}'
    ||| c == '\u{3000}'
}

/// `s` without its leading white space.
pub open spec fn trim_start(s: Seq<char>) -> Seq<char>
    decreases s.len(),
{
    if s.len() > 0 && is_white_space(s[0]) {
        trim_start(s.drop_first())
    } else {
        s
    }
}

/// `s` without its trailing white space.
pub open spec fn trim_end(s: Seq<char>) -> Seq<char>
    decreases s.len(),
{
    if s.len() > 0 && is_white_space(s.last()) {
        trim_end(s.drop_last())
    } else {
        s
    }
}

/// `s` without leading and trailing white space.
pub open spec fn trimmed(s: Seq<char>) -> Seq<char> {
    trim_end(trim_start(s))
}

/// Relies on str::trim: leading and trailing characters with the White_Space
/// property removed.
#[verifier::external_body]
fn trim_text(s: &str) -> (r: String)
    ensures
        r@ == trimmed(s@),
{
    s.trim().to_owned()
}

/// Relies on serde_json::from_slice into a `serde_json::Value`, and on
/// indexing it by `"login"` with `Value::as_str`.
#[verifier::external_body]
fn login_in_body(body: &[u8]) -> (r: Option<Option<String>>)
    ensures
        r is None <==> json_login(body@) is None,
        r matches Some(l) ==> (l is None <==> json_login(body@) == Some(None::<Seq<char>>)),
        r matches Some(Some(s)) ==> json_login(body@) == Some(Some(s@)),
{
    match serde_json::from_slice::<serde_json::Value>(body) {
        Ok(v) => Some(v["login"].as_str().map(|s| s.to_owned())),
        Err(_) => None,
    }
}

/// The token part with a leading `Bearer ` removed.
pub open spec fn without_bearer(t: Seq<char>) -> Seq<char> {
    if is_prefix("Bearer "@, t) {
        t.skip("Bearer "@.len() as int)
    } else {
        t
    }
}

/// The user name that credential `c` claims: the text before its first colon.
pub open spec fn claimed_user(c: Seq<char>) -> Option<Seq<char>> {
    if has_colon(c) {
        Some(c.take(colon_index(c)))
    } else {
        None
    }
}

/// The token that credential `c` carries: after the first colon if there is
/// one, without a leading `Bearer `, trimmed.
pub open spec fn token_of(c: Seq<char>) -> Seq<char> {
    if has_colon(c) {
        trimmed(without_bearer(c.skip(colon_index(c) + 1)))
    } else {
        trimmed(without_bearer(c))
    }
}

pub open spec fn text_option(o: Option<String>) -> Option<Seq<char>> {
    match o {
        Some(s) => Some(s@),
        None => None,
    }
}

/// The outcome of verification: the user name the provider reported (empty
/// where there was no usable answer) and whether the caller is verified.
/// An answer without a string `login` counts as unreadable: never verified.
pub open spec fn verdict(claimed: Option<Seq<char>>, reported: Option<Option<Seq<char>>>) -> (
    Seq<char>,
    bool,
) {
    match reported {
        Some(Some(login)) => match claimed {
            Some(c) => (login, c == login),
            None => (login, true),
        },
        _ => (Seq::empty(), false),
    }
}

/// The outcome for a reply from the provider.
pub open spec fn reply_verdict(claimed: Option<Seq<char>>, reply: ProviderReply) -> (Seq<char>, bool) {
    match reply {
        ProviderReply::Body { bytes } => verdict(claimed, json_login(bytes@)),
        _ => (Seq::empty(), false),
    }
}

/// `token` with a leading `Bearer ` removed, then trimmed.
fn clean_token(token: &str) -> (r: String)
    ensures
        r@ == trimmed(without_bearer(token@)),
{
    if starts_with_text(token, "Bearer ") {
        let rest = token.substring_char("Bearer ".unicode_len(), token.unicode_len());
        assert(rest@ =~= without_bearer(token@));
        trim_text(rest)
    } else {
        trim_text(token)
    }
}

/// Takes a credential apart: a bare token, or `username:token`; a leading
/// `Bearer ` on the token is dropped and the token is trimmed.
pub fn parse_credential(credential: &str) -> (r: Credential)
    ensures
        text_option(r.username) == claimed_user(credential@),
        r.token@ == token_of(credential@),
{
    match colon_position(credential) {
        Some(i) => {
            let n = credential.unicode_len();
            let user = credential.substring_char(0, i);
            let rest = credential.substring_char(i + 1, n);
            assert(user@ =~= credential@.take(i as int));
            assert(rest@ =~= credential@.skip(i + 1));
            Credential { username: Some(user.to_owned()), token: clean_token(rest) }
        },
        None => Credential { username: None, token: clean_token(credential) },
    }
}

/// The outcome for the login that the provider reported: `None` where its
/// answer could not be read, `Some(None)` where it held no string login; both
/// give the empty name, unverified. A claimed user name that differs from the
/// login fails verification, and the login is still returned.
pub fn verify_login(claimed: &Option<String>, reported: Option<Option<String>>) -> (r: (String, bool))
    ensures
        (r.0@, r.1) == verdict(
            text_option(*claimed),
            match reported {
                Some(l) => Some(text_option(l)),
                None => None,
            },
        ),
{
    match reported {
        Some(Some(login)) => match claimed {
            Some(c) => {
                let same = same_text(c.as_str(), login.as_str());
                (login, same)
            },
            None => (login, true),
        },
        _ => (String::new(), false),
    }
}

impl GitHubAuth {
    /// Verifies `credential` from the provider's `reply` to a request made
    /// with its token: the reported user name and whether the caller is
    /// verified. A failed request, an error status or an unreadable body
    /// gives the empty name, unverified.
    pub fn authenticate_github(&self, credential: &Credential, reply: ProviderReply) -> (r: (
        String,
        bool,
    ))
        ensures
            (r.0@, r.1) == reply_verdict(text_option(credential.username), reply),
    {
        match reply {
            ProviderReply::Body { bytes } => {
                let reported = login_in_body(bytes.as_slice());
                verify_login(&credential.username, reported)
            },
            _ => (String::new(), false),
        }
    }
}

} // verus!
