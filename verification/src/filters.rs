//! From an `Authorization` header to a session. No header starts a new
//! session; a header has to read `userstate`, a space, and a token.

use vstd::prelude::*;
use crate::codec::decoded;
use crate::controllers::QuizController;
use crate::models::{AuthError, UserState, UserStateView};
use crate::text::{eq_ignore_ascii_case, split_first, split_once, text_eq_ignore_ascii_case};

verus! {

/// The token in a header: what follows the first space, if what stands
/// before it is `userstate` in any letter case.
pub open spec fn credential(header: Seq<char>) -> Option<Seq<char>> {
    match split_first(header, ' ') {
        Some((kind, token)) => if text_eq_ignore_ascii_case(kind, "userstate"@) {
            Some(token)
        } else {
            None
        },
        None => None,
    }
}

/// What a header gives under `key`: the session its token carries, or why
/// it is refused.
pub open spec fn authorized(key: Seq<u8>, header: Seq<char>) -> Result<UserStateView, AuthError> {
    match credential(header) {
        Some(token) => decoded(key, token),
        None => Err(AuthError::Malformed),
    }
}

/// The session that the header's token carries.
pub fn authorize(quiz_controller: &QuizController, header: &str) -> (r: Result<
    UserState,
    AuthError,
>)
    ensures
        match r {
            Ok(state) => authorized(quiz_controller.secret(), header@) == Ok::<
                UserStateView,
                AuthError,
            >(state@),
            Err(e) => authorized(quiz_controller.secret(), header@) == Err::<
                UserStateView,
                AuthError,
            >(e),
        },
{
    match split_once(header, ' ') {
        None => Err(AuthError::Malformed),
        Some((kind, token)) => {
            if eq_ignore_ascii_case(kind, "userstate") {
                quiz_controller.decode_user(token)
            } else {
                Err(AuthError::Malformed)
            }
        },
    }
}

/// The session of a request: a new one where there is no header, else the
/// one that the header's token carries.
pub fn user_state(quiz_controller: &QuizController, authorization: Option<&str>) -> (r: Result<
    UserState,
    AuthError,
>)
    ensures
        match authorization {
            None => r matches Ok(state) && state@.answers == Seq::<(Seq<char>, Seq<bool>)>::empty()
                && state@.wheels == Seq::<(Seq<char>, u8)>::empty(),
            Some(header) => match r {
                Ok(state) => authorized(quiz_controller.secret(), header@) == Ok::<
                    UserStateView,
                    AuthError,
                >(state@),
                Err(e) => authorized(quiz_controller.secret(), header@) == Err::<
                    UserStateView,
                    AuthError,
                >(e),
            },
        },
{
    match authorization {
        None => Ok(quiz_controller.create_user()),
        Some(header) => authorize(quiz_controller, header),
    }
}

} // verus!
