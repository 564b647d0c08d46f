use quiz_session::codec::{decode_state, encode_state, sign_payload, verify_token};
use quiz_session::controllers::QuizController;
use quiz_session::filters::{authorize, user_state};
use quiz_session::models::{AuthError, Quiz, QuizQuestion, UserId, UserState, Wheel};

fn key() -> Vec<u8> {
    (0u8..32).collect()
}

fn question(text: &str, correct: &[&str], incorrect: &[&str]) -> QuizQuestion {
    QuizQuestion {
        question: text.to_string(),
        correct: correct.iter().map(|s| s.to_string()).collect(),
        incorrect: incorrect.iter().map(|s| s.to_string()).collect(),
    }
}

fn controller() -> QuizController {
    let quiz = Quiz {
        name: "rust".to_string(),
        points: 100,
        questions: vec![
            question("q1", &["a"], &["b"]),
            question("q2", &["a"], &["b"]),
            question("q3", &["a"], &["b"]),
            question("q4", &["a"], &["b"]),
        ],
    };
    QuizController::new(
        key(),
        vec![quiz],
        vec![],
        vec![Wheel { name: "lucky".to_string() }],
    )
}

fn sample_id() -> UserId {
    let mut id = [0u8; 16];
    for (i, b) in id.iter_mut().enumerate() {
        *b = i as u8;
    }
    UserId(id)
}

fn sample_state() -> UserState {
    let mut state = UserState::new(sample_id());
    state.push_answer("rust", true);
    state.push_answer("rust", false);
    state.push_answer("rust", true);
    state.set_wheel("lucky", 40);
    state
}

#[test]
fn signed_payload_has_known_text() {
    // The first test vector of RFC 4231.
    let token = sign_payload(&[0x0b; 20], b"Hi There");
    assert_eq!(token, "SGkgVGhlcmU:sDRMYdjbOFNcqK_OrwvxK4gdwgDJgz2nJuk3bC4yz_c");
}

#[test]
fn signed_payload_verifies() {
    let token = sign_payload(&key(), b"any bytes at all \x00\xff");
    assert_eq!(verify_token(&key(), &token), Ok(b"any bytes at all \x00\xff".to_vec()));
}

#[test]
fn empty_payload_verifies() {
    let token = sign_payload(&key(), b"");
    assert!(token.starts_with(':'));
    assert_eq!(verify_token(&key(), &token), Ok(Vec::new()));
}

#[test]
fn token_of_empty_state_is_known() {
    let state = UserState::new(sample_id());
    let token = encode_state(&key(), &state).unwrap();
    assert_eq!(
        token,
        "AAECAwQFBgcICQoLDA0ODwAAAAAAAAAAAAAAAAAAAAA:evZTx0oKAN6BEqEaoUoko_j9xJhmj8IJf_OcE1WuJRM"
    );
}

#[test]
fn token_of_state_is_known() {
    let token = encode_state(&key(), &sample_state()).unwrap();
    assert_eq!(
        token,
        "AAECAwQFBgcICQoLDA0ODwEAAAAAAAAABAAAAAAAAABydXN0AwAAAAAAAAABAAEBAAAAAAAAAAUAAAAAAAAAbHVja3ko:qiVbaR7FRv-NcxdfrnfY2Sr65kV7gF-lR--7-uhLCk0"
    );
}

#[test]
fn payload_has_the_layout_of_maps() {
    let mut answers = std::collections::BTreeMap::new();
    answers.insert("rust".to_string(), vec![true, false, true]);
    let mut wheels = std::collections::BTreeMap::new();
    wheels.insert("lucky".to_string(), 40u8);
    let expected = bincode::serialize(&(sample_id().0, answers, wheels)).unwrap();
    let token = encode_state(&key(), &sample_state()).unwrap();
    assert_eq!(verify_token(&key(), &token), Ok(expected));
}

#[test]
fn tag_is_the_hmac_of_the_payload() {
    let token = encode_state(&key(), &sample_state()).unwrap();
    let (payload, tag) = token.split_once(':').unwrap();
    let payload = base64::decode_config(payload, base64::URL_SAFE_NO_PAD).unwrap();
    let tag = base64::decode_config(tag, base64::URL_SAFE_NO_PAD).unwrap();
    assert_eq!(tag.len(), 32);
    let ring_key = ring::hmac::Key::new(ring::hmac::HMAC_SHA256, &key());
    assert!(ring::hmac::verify(&ring_key, &payload, &tag).is_ok());
}

#[test]
fn round_trip_of_empty_state() {
    let c = controller();
    let state = UserState::new(sample_id());
    let token = c.encode_user(&state).unwrap();
    assert_eq!(c.decode_user(&token), Ok(state));
}

#[test]
fn round_trip_of_state() {
    let c = controller();
    let state = sample_state();
    let token = c.encode_user(&state).unwrap();
    let back = c.decode_user(&token).unwrap();
    assert_eq!(back, state);
    assert_eq!(back.answers("rust"), Some(&vec![true, false, true]));
    assert_eq!(back.wheel("lucky"), Some(40));
    assert_eq!(back.id(), &sample_id());
}

#[test]
fn round_trip_of_state_with_many_keys() {
    let c = controller();
    let mut state = UserState::new(UserId([0xab; 16]));
    for name in ["zeta", "alpha", "m\u{e9}lange", "", "Alpha", "alph", "\u{1f600}"] {
        state.push_answer(name, name.len() % 2 == 0);
        state.push_answer(name, true);
        state.set_wheel(name, name.len() as u8);
    }
    let token = c.encode_user(&state).unwrap();
    assert_eq!(c.decode_user(&token), Ok(state));
}

#[test]
fn round_trip_of_fresh_user() {
    let c = controller();
    let state = c.create_user();
    let token = c.encode_user(&state).unwrap();
    assert_eq!(c.decode_user(&token), Ok(state));
}

#[test]
fn fresh_users_are_empty_and_differ() {
    let c = controller();
    let a = c.create_user();
    let b = c.create_user();
    assert!(a.answers("rust").is_none());
    assert_eq!(a.wheel("lucky"), None);
    assert_ne!(a.id(), b.id());
}

#[test]
fn equal_states_have_equal_tokens() {
    let c = controller();
    let mut a = UserState::new(sample_id());
    a.push_answer("b", true);
    a.push_answer("a", false);
    a.set_wheel("y", 20);
    a.set_wheel("x", 60);
    let mut b = UserState::new(sample_id());
    b.set_wheel("x", 60);
    b.push_answer("a", false);
    b.set_wheel("y", 20);
    b.push_answer("b", true);
    assert_eq!(a, b);
    assert_eq!(c.encode_user(&a).unwrap(), c.encode_user(&b).unwrap());
}

#[test]
fn flipping_any_bit_is_detected() {
    let c = controller();
    let state = sample_state();
    let token = c.encode_user(&state).unwrap();
    let chars: Vec<char> = token.chars().collect();
    let mut tried = 0;
    for at in 0..chars.len() {
        for bit in 0..8 {
            let flipped = match char::from_u32(chars[at] as u32 ^ (1 << bit)) {
                Some(ch) => ch,
                None => continue,
            };
            let mut changed = chars.clone();
            changed[at] = flipped;
            let changed: String = changed.into_iter().collect();
            let outcome = c.decode_user(&changed);
            assert!(
                matches!(outcome, Err(AuthError::Malformed) | Err(AuthError::InvalidSignature)),
                "accepted {:?}",
                changed
            );
            tried += 1;
        }
    }
    assert_eq!(tried, chars.len() * 8);
}

#[test]
fn token_under_another_key_is_refused() {
    let state = sample_state();
    let token = encode_state(&key(), &state).unwrap();
    let mut other = key();
    other[0] ^= 1;
    assert_eq!(decode_state(&other, &token), Err(AuthError::InvalidSignature));
    assert_eq!(decode_state(&key(), &token), Ok(state));
}

#[test]
fn token_without_colon_is_malformed() {
    let c = controller();
    assert_eq!(c.decode_user(""), Err(AuthError::Malformed));
    assert_eq!(c.decode_user("AAECAwQ"), Err(AuthError::Malformed));
}

#[test]
fn token_with_bad_base64_is_malformed() {
    let c = controller();
    let token = c.encode_user(&sample_state()).unwrap();
    let (payload, tag) = token.split_once(':').unwrap();
    assert_eq!(c.decode_user(&format!("{}*:{}", payload, tag)), Err(AuthError::Malformed));
    assert_eq!(c.decode_user(&format!("{}:{} ", payload, tag)), Err(AuthError::Malformed));
    assert_eq!(c.decode_user(&format!("{}:{}:{}", payload, tag, tag)), Err(AuthError::Malformed));
    assert_eq!(c.decode_user(&format!("{}:A", payload)), Err(AuthError::Malformed));
}

#[test]
fn token_with_short_tag_is_refused() {
    let c = controller();
    let token = c.encode_user(&sample_state()).unwrap();
    let (payload, _tag) = token.split_once(':').unwrap();
    assert_eq!(c.decode_user(&format!("{}:", payload)), Err(AuthError::InvalidSignature));
    assert_eq!(c.decode_user(&format!("{}:AAAA", payload)), Err(AuthError::InvalidSignature));
}

#[test]
fn signed_garbage_is_corrupt() {
    let c = controller();
    let token = sign_payload(&key(), b"xyz");
    assert_eq!(c.decode_user(&token), Err(AuthError::Corrupt));
    let token = sign_payload(&key(), b"");
    assert_eq!(c.decode_user(&token), Err(AuthError::Corrupt));
}

#[test]
fn signed_truncated_state_is_corrupt() {
    let c = controller();
    let token = c.encode_user(&sample_state()).unwrap();
    let mut payload = verify_token(&key(), &token).unwrap();
    payload.pop();
    assert_eq!(c.decode_user(&sign_payload(&key(), &payload)), Err(AuthError::Corrupt));
}

#[test]
fn signed_state_with_bad_mark_is_corrupt() {
    let c = controller();
    let answers = vec![("rust".to_string(), vec![2u8])];
    let wheels: Vec<(String, u8)> = vec![];
    let payload = bincode::serialize(&(sample_id().0, answers, wheels)).unwrap();
    assert_eq!(c.decode_user(&sign_payload(&key(), &payload)), Err(AuthError::Corrupt));
}

#[test]
fn signed_state_out_of_key_order_is_corrupt() {
    let c = controller();
    let answers = vec![("b".to_string(), vec![true]), ("a".to_string(), vec![true])];
    let wheels: Vec<(String, u8)> = vec![];
    let payload = bincode::serialize(&(sample_id().0, answers, wheels)).unwrap();
    assert_eq!(c.decode_user(&sign_payload(&key(), &payload)), Err(AuthError::Corrupt));
    let answers: Vec<(String, Vec<bool>)> = vec![];
    let wheels = vec![("w".to_string(), 20u8), ("w".to_string(), 40u8)];
    let payload = bincode::serialize(&(sample_id().0, answers, wheels)).unwrap();
    assert_eq!(c.decode_user(&sign_payload(&key(), &payload)), Err(AuthError::Corrupt));
}

#[test]
fn signed_state_in_key_order_is_accepted() {
    let c = controller();
    let answers = vec![("a".to_string(), vec![true]), ("b".to_string(), vec![false, true])];
    let wheels = vec![("w".to_string(), 20u8)];
    let payload = bincode::serialize(&(sample_id().0, answers.clone(), wheels.clone())).unwrap();
    let state = c.decode_user(&sign_payload(&key(), &payload)).unwrap();
    assert_eq!(Some(state.clone()), UserState::from_parts(sample_id().0, answers, wheels));
    assert_eq!(state.answers("b"), Some(&vec![false, true]));
    assert_eq!(state.wheel("w"), Some(20));
}

#[test]
fn from_parts_wants_key_order() {
    let id = sample_id().0;
    assert!(UserState::from_parts(id, vec![], vec![]).is_some());
    assert!(UserState::from_parts(
        id,
        vec![("a".to_string(), vec![]), ("a".to_string(), vec![])],
        vec![]
    )
    .is_none());
    assert!(UserState::from_parts(
        id,
        vec![],
        vec![("b".to_string(), 1), ("a".to_string(), 2)]
    )
    .is_none());
    // Order is by bytes: upper case comes before lower case.
    assert!(UserState::from_parts(
        id,
        vec![("B".to_string(), vec![]), ("a".to_string(), vec![])],
        vec![]
    )
    .is_some());
}

#[test]
fn clone_is_equal() {
    let state = sample_state();
    assert_eq!(state.clone(), state);
}

#[test]
fn header_with_token_gives_the_session() {
    let c = controller();
    let state = sample_state();
    let token = c.encode_user(&state).unwrap();
    assert_eq!(authorize(&c, &format!("userstate {}", token)), Ok(state.clone()));
    assert_eq!(authorize(&c, &format!("UserState {}", token)), Ok(state.clone()));
    assert_eq!(authorize(&c, &format!("USERSTATE {}", token)), Ok(state.clone()));
    assert_eq!(user_state(&c, Some(&format!("userstate {}", token))), Ok(state));
}

#[test]
fn header_of_another_kind_is_refused() {
    let c = controller();
    let token = c.encode_user(&sample_state()).unwrap();
    assert_eq!(authorize(&c, &format!("bearer {}", token)), Err(AuthError::Malformed));
    assert_eq!(authorize(&c, &format!("userstat {}", token)), Err(AuthError::Malformed));
    assert_eq!(authorize(&c, &format!("userstate\u{212a} {}", token)), Err(AuthError::Malformed));
    assert_eq!(authorize(&c, &format!(" userstate {}", token)), Err(AuthError::Malformed));
    assert_eq!(authorize(&c, &token), Err(AuthError::Malformed));
    assert_eq!(authorize(&c, "userstate"), Err(AuthError::Malformed));
    assert_eq!(authorize(&c, ""), Err(AuthError::Malformed));
}

#[test]
fn header_with_bad_token_is_refused() {
    let c = controller();
    let token = c.encode_user(&sample_state()).unwrap();
    assert_eq!(authorize(&c, &format!("userstate  {}", token)), Err(AuthError::Malformed));
    assert_eq!(authorize(&c, "userstate "), Err(AuthError::Malformed));
    assert_eq!(
        authorize(&c, &format!("userstate {}A", &token[..token.len() - 1])),
        Err(AuthError::InvalidSignature)
    );
}

#[test]
fn no_header_starts_a_session() {
    let c = controller();
    let state = user_state(&c, None).unwrap();
    assert!(state.answers("rust").is_none());
    assert_eq!(state.wheel("lucky"), None);
    assert_eq!(c.points(&state), 0);
}

#[test]
fn payload_order_is_that_of_maps() {
    let names = ["zeta", "alpha", "m\u{e9}lange", "", "Alpha", "alph", "\u{1f600}", "a b", "~"];
    let mut state = UserState::new(sample_id());
    let mut answers = std::collections::BTreeMap::new();
    let mut wheels = std::collections::BTreeMap::new();
    for (i, name) in names.iter().enumerate() {
        state.push_answer(name, i % 2 == 0);
        state.push_answer(name, i % 3 == 0);
        state.set_wheel(name, i as u8);
        answers.insert(name.to_string(), vec![i % 2 == 0, i % 3 == 0]);
        wheels.insert(name.to_string(), i as u8);
    }
    let expected = bincode::serialize(&(sample_id().0, answers, wheels)).unwrap();
    let token = encode_state(&key(), &state).unwrap();
    assert_eq!(verify_token(&key(), &token), Ok(expected));
}

#[test]
fn every_state_has_a_token() {
    let c = controller();
    assert!(c.encode_user(&UserState::new(UserId([0; 16]))).is_ok());
    let mut state = UserState::new(UserId([255; 16]));
    for i in 0..300 {
        let name = format!("quiz {} {}", i, "x".repeat(i));
        for j in 0..(i % 7) {
            state.push_answer(&name, j % 2 == 0);
        }
        state.set_wheel(&name, (i % 256) as u8);
    }
    let token = c.encode_user(&state).unwrap();
    assert_eq!(c.decode_user(&token), Ok(state));
}
