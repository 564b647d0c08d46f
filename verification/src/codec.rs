//! Tokens: a payload in base64, a colon, and the payload's HMAC-SHA256 tag
//! in base64. The encodings, the tag and the byte layout of a user state
//! come from outside crates; what they compute is named here, and the
//! framing around them is verified.

use vstd::prelude::*;
use vstd::string::*;
use crate::assoc::{increasing, keys};
use crate::models::{answers_view, wheels_view, AuthError, UserState, UserStateView};
use crate::text::{lemma_split_first_of_join, split_first, split_once};

verus! {

/// The unpadded URL-safe base64 text of `bytes`.
pub uninterp spec fn base64url_text(bytes: Seq<u8>) -> Seq<char>;

/// The bytes that `text` stands for in URL-safe base64, if it is valid.
pub uninterp spec fn base64url_bytes(text: Seq<char>) -> Option<Seq<u8>>;

/// The HMAC-SHA256 tag of `data` under `key`.
pub uninterp spec fn hmac_sha256(key: Seq<u8>, data: Seq<u8>) -> Seq<u8>;

/// The byte layout of a user state: its identifier, its answers and its
/// wheels, in this order.
pub uninterp spec fn state_bytes(
    id: Seq<u8>,
    answers: Seq<(Seq<char>, Seq<bool>)>,
    wheels: Seq<(Seq<char>, u8)>,
) -> Seq<u8>;

/// The identifier, answers and wheels that `bytes` lay out, if they lay out
/// any.
pub uninterp spec fn parsed_state(bytes: Seq<u8>) -> Option<
    (Seq<u8>, Seq<(Seq<char>, Seq<bool>)>, Seq<(Seq<char>, u8)>),
>;

/// The lower-case hexadecimal digit of a value below sixteen.
pub open spec fn hex_digit(nibble: int) -> char {
    if nibble < 10 {
        ((48 + nibble) as u8) as char
    } else {
        ((87 + nibble) as u8) as char
    }
}

/// The bytes in lower-case hexadecimal, two digits for each byte, the high
/// half first.
pub open spec fn hex_text(bytes: Seq<u8>) -> Seq<char> {
    Seq::new(
        2 * bytes.len(),
        |i: int|
            hex_digit(
                if i % 2 == 0 {
                    bytes[i / 2] as int / 16
                } else {
                    bytes[i / 2] as int % 16
                },
            ),
    )
}

/// `hex::encode`. Trusted: the text holds two lower-case hexadecimal digits for each byte.
#[verifier::external_body]
pub(crate) fn hex_encode(bytes: &[u8]) -> (text: String)
    ensures
        text@ == hex_text(bytes@),
{
    hex::encode(bytes)
}

/// `base64::encode_config` with `URL_SAFE_NO_PAD`. Trusted: the text is a
/// function of the bytes, it decodes back to them, and it is drawn from the
/// URL-safe alphabet, which has no colon. The length arithmetic inside
/// cannot overflow for a slice, which holds at most `isize::MAX` bytes.
#[verifier::external_body]
fn base64url_encode(bytes: &[u8]) -> (text: String)
    ensures
        text@ == base64url_text(bytes@),
        base64url_bytes(text@) == Some(bytes@),
        !text@.contains(':'),
{
    base64::encode_config(bytes, base64::URL_SAFE_NO_PAD)
}

/// `base64::decode_config_buf` with `URL_SAFE_NO_PAD`, into a fresh buffer.
/// Trusted: whether the text is accepted, and the bytes it gives, are a
/// function of the text.
#[verifier::external_body]
fn base64url_decode(text: &str) -> (bytes: Option<Vec<u8>>)
    ensures
        match bytes {
            Some(b) => base64url_bytes(text@) == Some(b@),
            None => base64url_bytes(text@).is_none(),
        },
{
    let mut buffer = Vec::new();
    match base64::decode_config_buf(text, base64::URL_SAFE_NO_PAD, &mut buffer) {
        Ok(()) => Some(buffer),
        Err(_) => None,
    }
}

/// `ring::hmac::sign` under an HMAC-SHA256 key made of `key`. Trusted: the
/// tag is a function of the key bytes and the data.
#[verifier::external_body]
fn hmac_sign(key: &[u8], data: &[u8]) -> (tag: Vec<u8>)
    ensures
        tag@ == hmac_sha256(key@, data@),
{
    let key = ring::hmac::Key::new(ring::hmac::HMAC_SHA256, key);
    ring::hmac::sign(&key, data).as_ref().to_vec()
}

/// `ring::hmac::verify` under an HMAC-SHA256 key made of `key`. Trusted: it
/// accepts exactly the tag that signing `data` gives; the comparison takes
/// constant time.
#[verifier::external_body]
fn hmac_verify(key: &[u8], data: &[u8], tag: &[u8]) -> (ok: bool)
    ensures
        ok == (tag@ == hmac_sha256(key@, data@)),
{
    let key = ring::hmac::Key::new(ring::hmac::HMAC_SHA256, key);
    ring::hmac::verify(&key, data, tag).is_ok()
}

/// `bincode::serialize`. Trusted: it succeeds (no size limit is set, it writes into a
/// vector, each list knows its length); the bytes are a function of the three values
/// and lay them out so that deserializing gives them back.
#[verifier::external_body]
fn bincode_serialize(
    id: &[u8; 16],
    answers: &Vec<(String, Vec<bool>)>,
    wheels: &Vec<(String, u8)>,
) -> (bytes: Option<Vec<u8>>)
    ensures
        bytes is Some,
        bytes matches Some(b) ==> b@ == state_bytes(
            id@,
            answers_view(answers@),
            wheels_view(wheels@),
        ) && parsed_state(b@) == Some((id@, answers_view(answers@), wheels_view(wheels@))),
{
    bincode::serialize(&(id, answers, wheels)).ok()
}

/// `bincode::deserialize` into an identifier, answers and wheels. Trusted:
/// whether the bytes are accepted, and what they give, are a function of
/// the bytes.
#[verifier::external_body]
fn bincode_deserialize(bytes: &[u8]) -> (parts: Option<
    ([u8; 16], Vec<(String, Vec<bool>)>, Vec<(String, u8)>),
>)
    ensures
        match parts {
            Some(p) => parsed_state(bytes@) == Some(
                (p.0@, answers_view(p.1@), wheels_view(p.2@)),
            ),
            None => parsed_state(bytes@).is_none(),
        },
{
    bincode::deserialize(bytes).ok()
}

/// The token for `payload` under `key`.
pub open spec fn token_text(key: Seq<u8>, payload: Seq<u8>) -> Seq<char> {
    base64url_text(payload) + seq![':'] + base64url_text(hmac_sha256(key, payload))
}

/// What checking `token` under `key` gives: the payload it carries, or why
/// it is refused.
pub open spec fn opened(key: Seq<u8>, token: Seq<char>) -> Result<Seq<u8>, AuthError> {
    match split_first(token, ':') {
        None => Err(AuthError::Malformed),
        Some((payload_text, tag_text)) => match base64url_bytes(payload_text) {
            None => Err(AuthError::Malformed),
            Some(payload) => match base64url_bytes(tag_text) {
                None => Err(AuthError::Malformed),
                Some(tag) => if tag == hmac_sha256(key, payload) {
                    Ok(payload)
                } else {
                    Err(AuthError::InvalidSignature)
                },
            },
        },
    }
}

/// The token of a user state under `key`.
pub open spec fn encoded(key: Seq<u8>, state: UserStateView) -> Seq<char> {
    token_text(key, state_bytes(state.id, state.answers, state.wheels))
}

/// What decoding `token` under `key` gives: the user state it carries, or
/// why it is refused.
pub open spec fn decoded(key: Seq<u8>, token: Seq<char>) -> Result<UserStateView, AuthError> {
    match opened(key, token) {
        Err(e) => Err(e),
        Ok(payload) => match parsed_state(payload) {
            None => Err(AuthError::Corrupt),
            Some((id, answers, wheels)) => if increasing(keys(answers)) && increasing(
                keys(wheels),
            ) {
                Ok(UserStateView { id, answers, wheels })
            } else {
                Err(AuthError::Corrupt)
            },
        },
    }
}

/// Signs `payload`: its base64 text, a colon, and the base64 text of its
/// tag. Checking the token under the same key gives the payload back.
pub fn sign_payload(key: &[u8], payload: &[u8]) -> (token: String)
    ensures
        token@ == token_text(key@, payload@),
        opened(key@, token@) == Ok::<Seq<u8>, AuthError>(payload@),
{
    let tag = hmac_sign(key, payload);
    let payload_text = base64url_encode(payload);
    let tag_text = base64url_encode(tag.as_slice());
    let mut token = payload_text;
    token.append(":");
    token.append(tag_text.as_str());
    proof {
        reveal_strlit(":");
        assert(":"@ =~= seq![':']);
        lemma_split_first_of_join(payload_text@, ':', tag_text@);
    }
    token
}

/// Checks `token` under `key` and hands out the payload it carries.
pub fn verify_token(key: &[u8], token: &str) -> (r: Result<Vec<u8>, AuthError>)
    ensures
        match r {
            Ok(payload) => opened(key@, token@) == Ok::<Seq<u8>, AuthError>(payload@),
            Err(e) => opened(key@, token@) == Err::<Seq<u8>, AuthError>(e),
        },
{
    let (payload_text, tag_text) = match split_once(token, ':') {
        Some(parts) => parts,
        None => {
            return Err(AuthError::Malformed);
        },
    };
    let payload = match base64url_decode(payload_text) {
        Some(bytes) => bytes,
        None => {
            return Err(AuthError::Malformed);
        },
    };
    let tag = match base64url_decode(tag_text) {
        Some(bytes) => bytes,
        None => {
            return Err(AuthError::Malformed);
        },
    };
    if hmac_verify(key, payload.as_slice(), tag.as_slice()) {
        Ok(payload)
    } else {
        Err(AuthError::InvalidSignature)
    }
}

/// A user state could not be laid out as bytes.
#[derive(Clone, Copy, Debug, PartialEq, Eq)]
pub struct EncodeError;

/// The token of `state` under `key`: every state has one. Decoding it
/// under the same key gives the state back.
pub fn encode_state(key: &[u8], state: &UserState) -> (r: Result<String, EncodeError>)
    ensures
        r matches Ok(token) && token@ == encoded(key@, state@) && decoded(key@, token@) == Ok::<
            UserStateView,
            AuthError,
        >(state@),
{
    proof {
        use_type_invariant(state);
        state.lemma_view();
    }
    match bincode_serialize(&state.id.0, &state.answers, &state.wheels) {
        Some(payload) => Ok(sign_payload(key, payload.as_slice())),
        None => Err(EncodeError),
    }
}

/// The user state that `token` carries, if the token is genuine under
/// `key` and its payload is a user state.
pub fn decode_state(key: &[u8], token: &str) -> (r: Result<UserState, AuthError>)
    ensures
        match r {
            Ok(state) => decoded(key@, token@) == Ok::<UserStateView, AuthError>(state@),
            Err(e) => decoded(key@, token@) == Err::<UserStateView, AuthError>(e),
        },
{
    let payload = verify_token(key, token)?;
    match bincode_deserialize(payload.as_slice()) {
        None => Err(AuthError::Corrupt),
        Some((id, answers, wheels)) => match UserState::from_parts(id, answers, wheels) {
            Some(state) => Ok(state),
            None => Err(AuthError::Corrupt),
        },
    }
}

/// The payload and the tag that the two parts of a token stand for, if the
/// token has two parts and both are base64.
pub open spec fn token_parts(token: Seq<char>) -> Option<(Seq<u8>, Seq<u8>)> {
    match split_first(token, ':') {
        None => None,
        Some((payload_text, tag_text)) => match (
            base64url_bytes(payload_text),
            base64url_bytes(tag_text),
        ) {
            (Some(payload), Some(tag)) => Some((payload, tag)),
            _ => None,
        },
    }
}

/// A token is accepted exactly if its second part stands for the tag of
/// what its first part stands for, and then it carries that payload.
pub proof fn lemma_accepted_is_signed(key: Seq<u8>, token: Seq<char>)
    ensures
        opened(key, token) matches Ok(payload) ==> token_parts(token) == Some(
            (payload, hmac_sha256(key, payload)),
        ),
        token_parts(token) matches Some((payload, tag)) ==> (opened(key, token) is Ok <==> tag
            == hmac_sha256(key, payload)),
        token_parts(token) is None ==> opened(key, token) == Err::<Seq<u8>, AuthError>(
            AuthError::Malformed,
        ),
{
}

/// Tamper detection. Take a token that is accepted, and any token whose
/// parts stand for another payload or another tag. The second is refused as
/// malformed or as wrongly signed, and yields no session, unless it carries
/// another payload together with that payload's own tag.
pub proof fn lemma_tamper_detection(key: Seq<u8>, genuine: Seq<char>, tampered: Seq<char>)
    requires
        opened(key, genuine) is Ok,
        token_parts(tampered) != token_parts(genuine),
        token_parts(tampered) matches Some((payload, tag)) ==> !(Ok::<Seq<u8>, AuthError>(payload)
            != opened(key, genuine) && tag == hmac_sha256(key, payload)),
    ensures
        opened(key, tampered) == Err::<Seq<u8>, AuthError>(AuthError::Malformed) || opened(
            key,
            tampered,
        ) == Err::<Seq<u8>, AuthError>(AuthError::InvalidSignature),
        decoded(key, tampered) is Err,
{
    lemma_accepted_is_signed(key, genuine);
    lemma_accepted_is_signed(key, tampered);
}

/// Whether a token is refused as malformed or as wrongly signed.
pub open spec fn refused(key: Seq<u8>, token: Seq<char>) -> bool {
    opened(key, token) == Err::<Seq<u8>, AuthError>(AuthError::Malformed) || opened(key, token)
        == Err::<Seq<u8>, AuthError>(AuthError::InvalidSignature)
}

/// A changed signature is detected. With the payload part as it was, any
/// tag part that does not stand for the same tag is refused, and the token
/// yields no session.
pub proof fn lemma_tampered_tag_refused(
    key: Seq<u8>,
    payload_text: Seq<char>,
    tag_text: Seq<char>,
    tampered_tag_text: Seq<char>,
)
    requires
        !payload_text.contains(':'),
        opened(key, payload_text + seq![':'] + tag_text) is Ok,
        base64url_bytes(tampered_tag_text) != base64url_bytes(tag_text),
    ensures
        refused(key, payload_text + seq![':'] + tampered_tag_text),
        decoded(key, payload_text + seq![':'] + tampered_tag_text) is Err,
{
    lemma_split_first_of_join(payload_text, ':', tag_text);
    lemma_split_first_of_join(payload_text, ':', tampered_tag_text);
}

/// A changed payload is detected. With the tag part as it was, any payload
/// part that does not stand for the same bytes is refused, and the token
/// yields no session, unless the bytes it stands for have the very same tag
/// under the key.
pub proof fn lemma_tampered_payload_refused(
    key: Seq<u8>,
    payload_text: Seq<char>,
    tag_text: Seq<char>,
    tampered_payload_text: Seq<char>,
)
    requires
        !payload_text.contains(':'),
        !tampered_payload_text.contains(':'),
        opened(key, payload_text + seq![':'] + tag_text) is Ok,
        base64url_bytes(tampered_payload_text) != base64url_bytes(payload_text),
        base64url_bytes(tampered_payload_text) matches Some(other) ==> Some(
            hmac_sha256(key, other),
        ) != base64url_bytes(tag_text),
    ensures
        refused(key, tampered_payload_text + seq![':'] + tag_text),
        decoded(key, tampered_payload_text + seq![':'] + tag_text) is Err,
{
    lemma_split_first_of_join(payload_text, ':', tag_text);
    lemma_split_first_of_join(tampered_payload_text, ':', tag_text);
}

} // verus!
