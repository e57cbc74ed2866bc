//! The `authorization` header of a request.

use crate::access::RequestAuth;
use crate::text::{
    blank, chars_of, equal_ignoring_case, is_blank, same_ignoring_case, trim, trimmed,
};
use vstd::prelude::*;
use vstd::string::*;

verus! {

/// Whether a byte of a header reads as text: a tab or a printable ASCII character.
pub open spec fn is_visible(byte: u8) -> bool {
    byte == 9 || 32 <= byte < 127
}

/// Whether a header value reads as text.
pub open spec fn is_readable(raw: Seq<u8>) -> bool {
    forall|i: int| 0 <= i < raw.len() ==> is_visible(#[trigger] raw[i])
}

/// The characters of a header value that reads as text.
pub open spec fn ascii_text(raw: Seq<u8>) -> Seq<char> {
    raw.map_values(|byte: u8| byte as char)
}

/// Read a header value as text, by `HeaderValue::to_str` of the `http` crate on the value that
/// `HeaderValue::from_bytes` makes of its bytes: it reads as text exactly when every byte is a
/// tab or a printable ASCII character, and then each byte is one character.
#[verifier::external_body]
pub(crate) fn header_text(raw: &[u8]) -> (text: Option<String>)
    ensures
        text is Some <==> is_readable(raw@),
        text matches Some(read) ==> read@ == ascii_text(raw@),
{
    let value = axum::http::HeaderValue::from_bytes(raw).ok()?;
    value.to_str().ok().map(|text| text.to_owned())
}

/// The position of the first occurrence of a character among the first `count`.
pub open spec fn first_position(text: Seq<char>, wanted: char, count: nat) -> Option<int>
    decreases count,
{
    if count == 0 {
        None
    } else {
        match first_position(text, wanted, (count - 1) as nat) {
            Some(position) => Some(position),
            None => if text[count - 1] == wanted {
                Some(count - 1)
            } else {
                None
            },
        }
    }
}

/// An occurrence stays the first one when more characters are looked at.
pub proof fn lemma_position_stays(text: Seq<char>, wanted: char, early: nat, late: nat)
    requires
        early <= late,
        first_position(text, wanted, early) is Some,
    ensures
        first_position(text, wanted, late) == first_position(text, wanted, early),
    decreases late,
{
    if early < late {
        lemma_position_stays(text, wanted, early, (late - 1) as nat);
    }
}

/// The bearer token of an authorization, where it uses the bearer scheme: a scheme and a token
/// with a space between them, the token without the whitespace around it.
pub open spec fn bearer_part(text: Seq<char>) -> Option<Seq<char>> {
    match first_position(text, ' ', text.len()) {
        None => None,
        Some(position) => {
            let token = text.skip(position + 1);
            if same_ignoring_case(text.take(position), "bearer"@) && !is_blank(token) {
                Some(trimmed(token))
            } else {
                None
            }
        },
    }
}

/// Why an authorization is refused.
#[derive(Clone, Copy, Debug, PartialEq, Eq, Structural)]
pub enum AuthorizationFault {
    /// It does not read as text.
    NotAscii,
    /// It does not use the bearer scheme.
    NotBearer,
}

/// The token of a request with the given authorization, if any.
pub open spec fn authorization(raw: Option<Seq<u8>>) -> Result<
    Option<Seq<char>>,
    AuthorizationFault,
> {
    match raw {
        None => Ok(None),
        Some(bytes) => if !is_readable(bytes) {
            Err(AuthorizationFault::NotAscii)
        } else {
            match bearer_part(ascii_text(bytes)) {
                Some(token) => Ok(Some(token)),
                None => Err(AuthorizationFault::NotBearer),
            }
        },
    }
}

/// The outcome of reading an authorization, as its model.
pub open spec fn authorization_outcome(outcome: Result<RequestAuth, AuthorizationFault>) -> Result<
    Option<Seq<char>>,
    AuthorizationFault,
> {
    match outcome {
        Ok(auth) => Ok(auth@),
        Err(fault) => Err(fault),
    }
}

/// An optional header value, as its model.
pub open spec fn optional_bytes(raw: Option<&[u8]>) -> Option<Seq<u8>> {
    match raw {
        Some(bytes) => Some(bytes@),
        None => None,
    }
}

/// Read the token out of an authorization that reads as text.
pub fn bearer_auth(text: &str) -> (outcome: Result<RequestAuth, AuthorizationFault>)
    ensures
        authorization_outcome(outcome) == (match bearer_part(text@) {
            Some(token) => Ok::<Option<Seq<char>>, AuthorizationFault>(Some(token)),
            None => Err(AuthorizationFault::NotBearer),
        }),
{
    let chars = chars_of(text);
    let mut index: usize = 0;
    while index < chars.len()
        invariant
            index <= chars@.len(),
            chars@ == text@,
            first_position(text@, ' ', index as nat) is None,
        decreases chars@.len() - index,
    {
        if chars[index] == ' ' {
            proof {
                lemma_position_stays(text@, ' ', (index + 1) as nat, text@.len());
            }
            let scheme = text.substring_char(0, index);
            let token = text.substring_char(index + 1, chars.len());
            proof {
                assert(scheme@ =~= text@.take(index as int));
                assert(token@ =~= text@.skip(index + 1));
            }
            if equal_ignoring_case(scheme, "bearer") && !blank(token) {
                return Ok(RequestAuth::bearer_token(trim(token)));
            }
            return Err(AuthorizationFault::NotBearer);
        }
        index = index + 1;
    }
    Err(AuthorizationFault::NotBearer)
}

/// Read the token out of the authorization of a request; a request without one has none.
pub fn authorization_auth(raw: Option<&[u8]>) -> (outcome: Result<RequestAuth, AuthorizationFault>)
    ensures
        authorization_outcome(outcome) == authorization(optional_bytes(raw)),
{
    match raw {
        None => Ok(RequestAuth::default()),
        Some(bytes) => match header_text(bytes) {
            None => Err(AuthorizationFault::NotAscii),
            Some(text) => bearer_auth(&text),
        },
    }
}

proof fn lemma_first_position(text: Seq<char>, wanted: char, count: nat)
    requires
        count <= text.len(),
    ensures
        match first_position(text, wanted, count) {
            Some(position) => 0 <= position < count && text[position] == wanted && forall|i: int|
                0 <= i < position ==> #[trigger] text[i] != wanted,
            None => forall|i: int| 0 <= i < count ==> #[trigger] text[i] != wanted,
        },
    decreases count,
{
    if count > 0 {
        lemma_first_position(text, wanted, (count - 1) as nat);
    }
}

/// An authorization made of a scheme, a space and a token gives the token, without the whitespace
/// around it, exactly when the scheme is the bearer scheme in whatever case and the token is not
/// blank; one without a space gives none.
pub proof fn law_bearer_tokens_are_read(text: Seq<char>, scheme: Seq<char>, token: Seq<char>)
    requires
        !scheme.contains(' '),
    ensures
        text == scheme.push(' ') + token ==> bearer_part(text) == (if same_ignoring_case(
            scheme,
            "bearer"@,
        ) && !is_blank(token) {
            Some(trimmed(token))
        } else {
            None
        }),
        !text.contains(' ') ==> bearer_part(text) is None,
{
    lemma_first_position(text, ' ', text.len());
    if text == scheme.push(' ') + token {
        assert(text[scheme.len() as int] == ' ');
        let position = first_position(text, ' ', text.len())->0;
        assert forall|i: int| 0 <= i < scheme.len() implies #[trigger] text[i] != ' ' by {
            assert(scheme.contains(scheme[i]));
        }
        assert(position == scheme.len());
        assert(text.take(position) =~= scheme);
        assert(text.skip(position + 1) =~= token);
    }
    if !text.contains(' ') && first_position(text, ' ', text.len()) is Some {
        assert(text.contains(text[first_position(text, ' ', text.len())->0]));
    }
}

/// A request without an authorization has no token. One whose authorization holds anything but tabs
/// and printable ASCII is refused for that, and one that is not of the bearer scheme for that.
pub proof fn law_authorizations_are_read(bytes: Seq<u8>)
    ensures
        authorization(None) == Ok::<Option<Seq<char>>, AuthorizationFault>(None),
        authorization(Some(bytes)) == Err::<Option<Seq<char>>, AuthorizationFault>(
            AuthorizationFault::NotAscii,
        ) <==> exists|i: int|
            0 <= i < bytes.len() && #[trigger] bytes[i] != 9 && !(0x20 <= bytes[i] <= 0x7e),
        (forall|i: int| 0 <= i < bytes.len() ==> bytes[i] == 9 || 0x20 <= #[trigger] bytes[i] <= 0x7e)
            ==> authorization(Some(bytes)) == (match bearer_part(
            Seq::new(bytes.len(), |i: int| bytes[i] as char),
        ) {
            Some(token) => Ok::<Option<Seq<char>>, AuthorizationFault>(Some(token)),
            None => Err(AuthorizationFault::NotBearer),
        }),
{
    assert(ascii_text(bytes) =~= Seq::new(bytes.len(), |i: int| bytes[i] as char));
    if !is_readable(bytes) {
        let i = choose|i: int| 0 <= i < bytes.len() && !is_visible(#[trigger] bytes[i]);
        assert(bytes[i] != 9);
    }
    if exists|i: int|
        0 <= i < bytes.len() && #[trigger] bytes[i] != 9 && !(0x20 <= bytes[i] <= 0x7e) {
        let i = choose|i: int|
            0 <= i < bytes.len() && #[trigger] bytes[i] != 9 && !(0x20 <= bytes[i] <= 0x7e);
        assert(!is_visible(bytes[i]));
    }
    if forall|i: int| 0 <= i < bytes.len() ==> bytes[i] == 9 || 0x20 <= #[trigger] bytes[i] <= 0x7e {
        assert(is_readable(bytes));
    }
}

} // verus!
