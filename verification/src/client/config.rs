//! Settings of a client.

use super::error::{ClientError, ClientErrorModel};
use crate::headers::{
    ascii_text, authorization, first_position, is_readable, is_visible, lemma_position_stays,
    AuthorizationFault,
};
use crate::text::{
    is_blank, is_empty_text, lemma_trimmed_of_blank, lemma_trimmed_settles, trim, trimmed,
};
use vstd::prelude::*;
use vstd::string::*;

verus! {

/// Client connection settings shared across tools and SDKs.
#[derive(Debug, PartialEq, Eq)]
pub struct ClientConfig {
    /// gRPC endpoint URL.
    pub grpc_endpoint: String,
    /// Optional bearer token attached to every gRPC request.
    pub auth_token: Option<String>,
}

impl Default for ClientConfig {
    fn default() -> (config: Self)
        ensures
            config.grpc_endpoint@ == "http://127.0.0.1:50051"@,
            config.auth_token is None,
    {
        ClientConfig { grpc_endpoint: "http://127.0.0.1:50051".to_owned(), auth_token: None }
    }
}

/// Whether a byte can stand in a metadata value.
pub open spec fn is_metadata_byte(byte: u8) -> bool {
    byte == 9 || (byte >= 32 && byte != 127)
}

/// Whether a text can be a metadata value.
pub open spec fn is_metadata_text(text: Seq<char>) -> bool {
    forall|i: int|
        0 <= i < vstd::utf8::encode_utf8(text).len() ==> is_metadata_byte(
            #[trigger] vstd::utf8::encode_utf8(text)[i],
        )
}

/// Encode a text as an ASCII metadata value, by `tonic`'s `MetadataValue::try_from`: it can be
/// encoded exactly when each of its bytes is a tab or neither a control character nor DEL, and
/// then the value holds its bytes as they are.
#[verifier::external_body]
pub(crate) fn encode_metadata(text: String) -> (outcome: Result<Vec<u8>, String>)
    ensures
        outcome is Ok <==> is_metadata_text(text@),
        outcome matches Ok(bytes) ==> bytes@ == vstd::utf8::encode_utf8(text@),
        outcome matches Err(error) ==> error@ == "failed to parse metadata value"@,
{
    tonic::metadata::MetadataValue::<tonic::metadata::Ascii>::try_from(text)
        .map(|value| value.as_bytes().to_vec())
        .map_err(|error| error.to_string())
}

/// What is wrong with a bearer token, if anything.
pub open spec fn token_fault(token: Seq<char>) -> Option<ClientErrorModel> {
    if is_blank(token) {
        Some(ClientErrorModel::InvalidAuthToken("client auth token must not be empty"@))
    } else if !is_metadata_text("Bearer "@ + trimmed(token)) {
        Some(
            ClientErrorModel::InvalidAuthToken(
                "client auth token could not be encoded as authorization metadata: failed to parse metadata value"@,
            ),
        )
    } else {
        None
    }
}

/// The value of the `authorization` metadata that carries a bearer token.
pub fn bearer_metadata_value(token: &str) -> (outcome: Result<Vec<u8>, ClientError>)
    ensures
        match token_fault(token@) {
            Some(fault) => outcome matches Err(error) && error@ == fault,
            None => outcome matches Ok(bytes) && bytes@ == vstd::utf8::encode_utf8(
                "Bearer "@ + trimmed(token@),
            ),
        },
{
    let token_text = trim(token);
    proof {
        lemma_trimmed_of_blank(token@);
    }
    if is_empty_text(token_text) {
        return Err(
            ClientError::InvalidAuthToken("client auth token must not be empty".to_owned()),
        );
    }
    let mut value = "Bearer ".to_owned();
    value.append(token_text);
    match encode_metadata(value) {
        Ok(bytes) => Ok(bytes),
        Err(error) => {
            let mut message =
                "client auth token could not be encoded as authorization metadata: ".to_owned();
            message.append(&error);
            proof {
                reveal_strlit(
                    "client auth token could not be encoded as authorization metadata: ",
                );
                reveal_strlit("failed to parse metadata value");
                reveal_strlit(
                    "client auth token could not be encoded as authorization metadata: failed to parse metadata value",
                );
                assert(message@
                    =~= "client auth token could not be encoded as authorization metadata: failed to parse metadata value"@);
            }
            Err(ClientError::InvalidAuthToken(message))
        },
    }
}

/// The value of the `authorization` metadata of a client, if it has a token.
pub fn authorization_metadata(auth_token: Option<&str>) -> (outcome: Result<
    Option<Vec<u8>>,
    ClientError,
>)
    ensures
        match auth_token {
            None => outcome matches Ok(value) && value is None,
            Some(token) => match token_fault(token@) {
                Some(fault) => outcome matches Err(error) && error@ == fault,
                None => outcome matches Ok(Some(bytes)) && bytes@ == vstd::utf8::encode_utf8(
                    "Bearer "@ + trimmed(token@),
                ),
            },
        },
{
    match auth_token {
        None => Ok(None),
        Some(token) => match bearer_metadata_value(token) {
            Ok(bytes) => Ok(Some(bytes)),
            Err(error) => Err(error),
        },
    }
}

/// Whether a character is a tab or a printable ASCII character.
pub open spec fn is_visible_char(c: char) -> bool {
    c == '\t' || ' ' <= c <= '~'
}

/// Whether every character of a text is a tab or a printable ASCII character.
pub open spec fn is_visible_text(text: Seq<char>) -> bool {
    forall|i: int| 0 <= i < text.len() ==> is_visible_char(#[trigger] text[i])
}

proof fn lemma_visible_text_encodes(text: Seq<char>)
    requires
        is_visible_text(text),
    ensures
        vstd::utf8::encode_utf8(text).len() == text.len(),
        ascii_text(vstd::utf8::encode_utf8(text)) == text,
        is_readable(vstd::utf8::encode_utf8(text)),
        is_metadata_text(text),
{
    broadcast use vstd::utf8::is_ascii_chars_encode_utf8;

    assert forall|i: int| 0 <= i < text.len() implies '\0' <= #[trigger] text[i] <= '\u{7f}' by {
        assert(is_visible_char(text[i]));
    }
    assert(vstd::utf8::is_ascii_chars(text));
    let bytes = vstd::utf8::encode_utf8(text);
    assert forall|i: int| 0 <= i < bytes.len() implies is_visible(#[trigger] bytes[i]) by {
        assert(text[i] as u8 == bytes[i]);
        assert(is_visible_char(text[i]));
    }
    assert(ascii_text(bytes) =~= text);
}

/// A token that a client sends is the token that the server reads, without the whitespace around
/// it, where what is left are tabs and printable ASCII characters.
pub proof fn law_bearer_tokens_come_through(token: Seq<char>)
    requires
        !is_blank(token),
        is_visible_text(trimmed(token)),
    ensures
        token_fault(token) is None,
        authorization(Some(vstd::utf8::encode_utf8("Bearer "@ + trimmed(token)))) == Ok::<
            Option<Seq<char>>,
            AuthorizationFault,
        >(Some(trimmed(token))),
{
    let inner = trimmed(token);
    let value = "Bearer "@ + inner;
    reveal_strlit("Bearer ");
    reveal_strlit("bearer");
    lemma_trimmed_of_blank(token);
    lemma_trimmed_settles(token);
    assert forall|i: int| 0 <= i < value.len() implies is_visible_char(#[trigger] value[i]) by {
        if i >= 7 {
            assert(value[i] == inner[i - 7]);
            assert(is_visible_char(inner[i - 7]));
        }
    }
    lemma_visible_text_encodes(value);
    reveal_with_fuel(first_position, 8);
    lemma_position_stays(value, ' ', 7, value.len());
    assert(value.skip(7) =~= inner);
    assert(value.take(6) =~= "Bearer "@.take(6));
    lemma_trimmed_of_blank(inner);
}

/// A token can be sent exactly when it is not blank and, without the whitespace around it, can stand
/// in metadata: neither control characters nor DEL, but for tabs.
pub proof fn law_tokens_can_be_sent(token: Seq<char>)
    ensures
        is_blank(token) ==> token_fault(token) is Some,
        !is_blank(token) ==> (token_fault(token) is None <==> forall|i: int|
            0 <= i < vstd::utf8::encode_utf8("Bearer "@ + trimmed(token)).len() ==> {
                let byte = #[trigger] vstd::utf8::encode_utf8("Bearer "@ + trimmed(token))[i];
                byte == 9 || byte >= 0x20 && byte != 0x7f
            }),
{
    let bytes = vstd::utf8::encode_utf8("Bearer "@ + trimmed(token));
    if is_metadata_text("Bearer "@ + trimmed(token)) {
        assert forall|i: int| 0 <= i < bytes.len() implies ({
            let byte = #[trigger] bytes[i];
            byte == 9 || byte >= 0x20 && byte != 0x7f
        }) by {
            assert(is_metadata_byte(bytes[i]));
        }
    }
}

/// A token that cannot be sent is refused, and the reason is named.
pub proof fn law_unusable_tokens_are_named(token: Seq<char>)
    ensures
        is_blank(token) ==> token_fault(token) == Some(
            ClientErrorModel::InvalidAuthToken("client auth token must not be empty"@),
        ),
        !is_blank(token) && token_fault(token) is Some ==> token_fault(token) == Some(
            ClientErrorModel::InvalidAuthToken(
                "client auth token could not be encoded as authorization metadata: failed to parse metadata value"@,
            ),
        ),
{
}

} // verus!
