//! The operations on a session: the next question of a quiz, answering it,
//! spinning a wheel, and carrying the session in a signed token.

use vstd::prelude::*;
use crate::assoc::{keys, lemma_lookup_put_same, lookup, put};
use crate::catalog::{accepts, find_code, find_quiz, has_wheel, normalize, normalized};
use crate::chance::{choose_weighted, random_id, total_weight};
use crate::codec::{
    decode_state, decoded, encode_state, encoded, hex_encode, EncodeError,
};
use crate::models::{
    answers_view, wheels_view, AuthError, Code, Quiz, QuizQuestion, Timestamp, UserId,
    UserRecord, UserState, UserStateView, Wheel,
};
use crate::redeem::{
    insert_redeemed, is_record, join_names, redeemed, redeemed_view, registrable,
    registration_points, submitted_before, sum_code_points, texts,
};
use crate::scoring::{
    answers_score, entry_scorable, lemma_answers_score_monotone, lemma_answers_score_step,
    lemma_wheels_score_monotone, scorable, score_quiz, total_points, wheels_score,
};
use crate::text::str_eq;

verus! {

/// The question a user stands at in a quiz: the one whose index is the
/// number of answers given, if the quiz is known and has that many.
pub open spec fn next_question_of(
    quizzes: Seq<Quiz>,
    state: UserStateView,
    quiz_name: Seq<char>,
) -> Option<QuizQuestion> {
    match find_quiz(quizzes, quiz_name) {
        None => None,
        Some(quiz) => {
            let index = state.answers_for(quiz_name).len();
            if index < quiz.questions@.len() {
                Some(quiz.questions@[index as int])
            } else {
                None
            }
        },
    }
}

/// The state after one more answer to `quiz_name` was marked.
pub open spec fn answered(
    state: UserStateView,
    quiz_name: Seq<char>,
    correct: bool,
) -> UserStateView {
    UserStateView {
        answers: put(state.answers, quiz_name, state.answers_for(quiz_name).push(correct)),
        ..state
    }
}

/// The points a wheel can give, each with its weight.
pub open spec fn wheel_choices() -> Seq<(u8, u8)> {
    seq![(20u8, 3u8), (40u8, 2u8), (60u8, 1u8)]
}

/// Whether the wheel is known and the user has not spun it yet.
pub open spec fn can_spin(wheels: Seq<Wheel>, state: UserStateView, wheel: Seq<char>) -> bool {
    has_wheel(wheels, wheel) && lookup(state.wheels, wheel).is_none()
}

/// The state after `wheel` gave `points`.
pub open spec fn spun(state: UserStateView, wheel: Seq<char>, points: u8) -> UserStateView {
    UserStateView { wheels: put(state.wheels, wheel, points), ..state }
}

/// The catalog of quizzes, codes and wheels, and the key that signs
/// sessions.
#[derive(Clone, Debug)]
pub struct QuizController {
    secret_key: Vec<u8>,
    codes: Vec<Code>,
    quiz: Vec<Quiz>,
    wheel: Vec<Wheel>,
}

impl QuizController {
    /// The signing key.
    pub closed spec fn secret(&self) -> Seq<u8> {
        self.secret_key@
    }

    /// The quizzes, as they were given.
    pub closed spec fn quizzes(&self) -> Seq<Quiz> {
        self.quiz@
    }

    /// The codes, as they were given.
    pub closed spec fn code_list(&self) -> Seq<Code> {
        self.codes@
    }

    /// The wheels, as they were given.
    pub closed spec fn wheels(&self) -> Seq<Wheel> {
        self.wheel@
    }

    /// A controller over the given catalog that signs with `secret_key`.
    pub fn new(secret_key: Vec<u8>, quiz: Vec<Quiz>, codes: Vec<Code>, wheel: Vec<Wheel>) -> (c:
        QuizController)
        ensures
            c.secret() == secret_key@,
            c.quizzes() == quiz@,
            c.code_list() == codes@,
            c.wheels() == wheel@,
    {
        QuizController { secret_key, codes, quiz, wheel }
    }

    /// The quiz of that name, if there is one.
    pub fn quiz_named(&self, name: &str) -> (found: Option<&Quiz>)
        ensures
            match found {
                Some(quiz) => find_quiz(self.quizzes(), name@) == Some(*quiz),
                None => find_quiz(self.quizzes(), name@).is_none(),
            },
    {
        let mut i: usize = self.quiz.len();
        proof {
            assert(self.quiz@.take(i as int) =~= self.quiz@);
        }
        while i > 0
            invariant
                i <= self.quiz@.len(),
                find_quiz(self.quiz@, name@) == find_quiz(self.quiz@.take(i as int), name@),
            decreases i,
        {
            i -= 1;
            proof {
                assert(self.quiz@.take(i + 1).drop_last() =~= self.quiz@.take(i as int));
            }
            if str_eq(self.quiz[i].name.as_str(), name) {
                return Some(&self.quiz[i]);
            }
        }
        None
    }

    /// The code that `text` names, if it names one: letter case and
    /// surrounding white space count on neither side.
    pub fn code_named(&self, text: &str) -> (found: Option<&Code>)
        ensures
            match found {
                Some(c) => find_code(self.code_list(), text@) == Some(*c),
                None => find_code(self.code_list(), text@).is_none(),
            },
    {
        let wanted = normalize(text);
        let mut i: usize = self.codes.len();
        proof {
            assert(self.codes@.take(i as int) =~= self.codes@);
        }
        while i > 0
            invariant
                i <= self.codes@.len(),
                wanted@ == normalized(text@),
                find_code(self.codes@, text@) == find_code(self.codes@.take(i as int), text@),
            decreases i,
        {
            i -= 1;
            proof {
                assert(self.codes@.take(i + 1).drop_last() =~= self.codes@.take(i as int));
            }
            let key = normalize(self.codes[i].code.as_str());
            if str_eq(key.as_str(), wanted.as_str()) {
                return Some(&self.codes[i]);
            }
        }
        None
    }

    /// Whether a wheel of that name is known.
    pub fn knows_wheel(&self, name: &str) -> (known: bool)
        ensures
            known == has_wheel(self.wheels(), name@),
    {
        let mut i: usize = 0;
        while i < self.wheel.len()
            invariant
                i <= self.wheel@.len(),
                forall|j: int| 0 <= j < i ==> (#[trigger] self.wheel@[j]).name@ != name@,
            decreases self.wheel@.len() - i,
        {
            if str_eq(self.wheel[i].name.as_str(), name) {
                return true;
            }
            i += 1;
        }
        false
    }

    /// A fresh session under a random identifier.
    pub fn create_user(&self) -> (state: UserState)
        ensures
            state@.answers == Seq::<(Seq<char>, Seq<bool>)>::empty(),
            state@.wheels == Seq::<(Seq<char>, u8)>::empty(),
    {
        UserState::new(UserId(random_id()))
    }

    /// The session that `token` carries, if the token was signed with this
    /// controller's key and its payload is a session.
    pub fn decode_user(&self, token: &str) -> (r: Result<UserState, AuthError>)
        ensures
            match r {
                Ok(state) => decoded(self.secret(), token@) == Ok::<UserStateView, AuthError>(
                    state@,
                ),
                Err(e) => decoded(self.secret(), token@) == Err::<UserStateView, AuthError>(e),
            },
    {
        decode_state(self.secret_key.as_slice(), token)
    }

    /// The token that carries `user_state`: every session has one. Decoding
    /// it gives the session back.
    pub fn encode_user(&self, user_state: &UserState) -> (r: Result<String, EncodeError>)
        ensures
            r matches Ok(token) && token@ == encoded(self.secret(), user_state@) && decoded(
                self.secret(),
                token@,
            ) == Ok::<UserStateView, AuthError>(user_state@),
    {
        encode_state(self.secret_key.as_slice(), user_state)
    }

    /// The question the user stands at in the quiz, if the quiz is known
    /// and not finished.
    pub fn next_question<'a>(&'a self, quiz_name: &str, user_state: &UserState) -> (next: Option<
        &'a QuizQuestion,
    >)
        ensures
            match next {
                Some(question) => next_question_of(self.quizzes(), user_state@, quiz_name@)
                    == Some(*question),
                None => next_question_of(self.quizzes(), user_state@, quiz_name@).is_none(),
            },
    {
        match self.quiz_named(quiz_name) {
            None => None,
            Some(quiz) => {
                let index = match user_state.answers(quiz_name) {
                    Some(answers) => answers.len(),
                    None => 0,
                };
                if index < quiz.questions.len() {
                    Some(&quiz.questions[index])
                } else {
                    None
                }
            },
        }
    }
}

/// Whether `answer` is one of the question's correct answers.
pub fn is_correct(question: &QuizQuestion, answer: &str) -> (correct: bool)
    ensures
        correct == accepts(*question, answer@),
{
    let mut i: usize = 0;
    while i < question.correct.len()
        invariant
            i <= question.correct@.len(),
            forall|j: int| 0 <= j < i ==> (#[trigger] question.correct@[j])@ != answer@,
        decreases question.correct@.len() - i,
    {
        if str_eq(question.correct[i].as_str(), answer) {
            return true;
        }
        i += 1;
    }
    false
}

impl QuizController {
    /// Marks `answer` against the question the user stands at and records
    /// the mark. Where there is no such question nothing changes.
    pub fn answer_question<'a>(
        &'a self,
        quiz_name: &str,
        user_state: &mut UserState,
        answer: &str,
    ) -> (marked: Option<(bool, &'a QuizQuestion)>)
        ensures
            match marked {
                None => {
                    &&& next_question_of(self.quizzes(), old(user_state)@, quiz_name@).is_none()
                    &&& final(user_state)@ == old(user_state)@
                },
                Some((correct, question)) => {
                    &&& next_question_of(self.quizzes(), old(user_state)@, quiz_name@) == Some(
                        *question,
                    )
                    &&& correct == accepts(*question, answer@)
                    &&& final(user_state)@ == answered(old(user_state)@, quiz_name@, correct)
                    &&& final(user_state)@.answers_for(quiz_name@).len() == old(
                        user_state
                    )@.answers_for(quiz_name@).len() + 1
                    &&& find_quiz(self.quizzes(), quiz_name@) matches Some(quiz)
                    &&& final(user_state)@.answers_for(quiz_name@).len() <= quiz.questions@.len()
                },
            },
    {
        match self.next_question(quiz_name, &*user_state) {
            None => None,
            Some(question) => {
                let correct = is_correct(question, answer);
                proof {
                    use_type_invariant(&*user_state);
                    lemma_lookup_put_same(
                        user_state@.answers,
                        quiz_name@,
                        user_state@.answers_for(quiz_name@).push(correct),
                    );
                }
                user_state.push_answer(quiz_name, correct);
                Some((correct, question))
            },
        }
    }

    /// Records `drawn` as what `wheel` gave, if the wheel is known and was
    /// not spun before. Otherwise nothing changes.
    pub fn record_spin(&self, wheel: &str, user_state: &mut UserState, drawn: u8) -> (points:
        Option<u32>)
        ensures
            can_spin(self.wheels(), old(user_state)@, wheel@) ==> points == Some(drawn as u32)
                && final(user_state)@ == spun(old(user_state)@, wheel@, drawn),
            !can_spin(self.wheels(), old(user_state)@, wheel@) ==> points.is_none()
                && final(user_state)@ == old(user_state)@,
    {
        if !self.knows_wheel(wheel) {
            return None;
        }
        match user_state.wheel(wheel) {
            Some(_) => None,
            None => {
                user_state.set_wheel(wheel, drawn);
                Some(drawn as u32)
            },
        }
    }

    /// Spins `wheel` for the user: draws 20, 40 or 60 points with weights
    /// 3, 2 and 1 and records the draw. A wheel that is unknown, or that
    /// the user has spun already, gives nothing and changes nothing.
    pub fn spin_wheel(&self, wheel: &str, user_state: &mut UserState) -> (points: Option<u32>)
        ensures
            !can_spin(self.wheels(), old(user_state)@, wheel@) ==> points.is_none()
                && final(user_state)@ == old(user_state)@,
            can_spin(self.wheels(), old(user_state)@, wheel@) ==> (points matches Some(p)
                && (p == 20 || p == 40 || p == 60)
                && final(user_state)@ == spun(old(user_state)@, wheel@, p as u8)),
    {
        if !self.knows_wheel(wheel) || user_state.wheel(wheel).is_some() {
            return None;
        }
        let choices = wheel_table();
        proof {
            lemma_wheel_weights();
        }
        match choose_weighted(&choices) {
            Some((drawn, weight)) => {
                proof {
                    let all = wheel_choices();
                    assert(all.contains((drawn, weight)));
                    let i = choose|i: int| 0 <= i < all.len() && all[i] == (drawn, weight);
                    assert(i == 0 || i == 1 || i == 2);
                }
                self.record_spin(wheel, user_state, drawn)
            },
            None => None,
        }
    }
}

/// The table a wheel draws from: 20 points with weight 3, 40 with weight 2
/// and 60 with weight 1.
pub fn wheel_table() -> (table: Vec<(u8, u8)>)
    ensures
        table@ == wheel_choices(),
{
    let table: Vec<(u8, u8)> = vec![(20u8, 3u8), (40u8, 2u8), (60u8, 1u8)];
    assert(table@ =~= wheel_choices());
    table
}

/// The weights of the wheel's choices add up to six.
pub proof fn lemma_wheel_weights()
    ensures
        total_weight(wheel_choices()) == 6,
{
    let c = wheel_choices();
    assert(c.drop_last() =~= seq![(20u8, 3u8), (40u8, 2u8)]);
    assert(c.drop_last().drop_last() =~= seq![(20u8, 3u8)]);
    assert(c.drop_last().drop_last().drop_last() =~= Seq::<(u8, u8)>::empty());
    reveal_with_fuel(total_weight, 4);
}

impl QuizController {
    /// The points of the session, or `None` where it cannot be scored:
    /// answers are recorded to a quiz without questions, or the total does
    /// not fit.
    pub fn checked_points(&self, user_state: &UserState) -> (points: Option<u32>)
        ensures
            match points {
                Some(p) => scorable(self.quizzes(), user_state@) && p == total_points(
                    self.quizzes(),
                    user_state@,
                ),
                None => !scorable(self.quizzes(), user_state@),
            },
    {
        proof {
            user_state.lemma_view();
        }
        let ghost answers = user_state@.answers;
        let ghost wheels = user_state@.wheels;
        let mut sum: u32 = 0;
        let mut i: usize = 0;
        while i < user_state.answers.len()
            invariant
                answers == answers_view(user_state.answers@),
                answers == user_state@.answers,
                wheels == user_state@.wheels,
                i <= answers.len(),
                sum == answers_score(self.quiz@, answers.take(i as int)),
                forall|j: int| 0 <= j < i ==> entry_scorable(self.quiz@, #[trigger] answers[j]),
            decreases answers.len() - i,
        {
            proof {
                lemma_answers_score_step(self.quiz@, answers, i as int);
                lemma_answers_score_monotone(self.quiz@, answers, i + 1);
                lemma_wheels_score_monotone(wheels, 0);
                assert(answers[i as int] == (
                    user_state.answers@[i as int].0@,
                    user_state.answers@[i as int].1@,
                ));
            }
            let entry = &user_state.answers[i];
            match self.quiz_named(entry.0.as_str()) {
                None => {},
                Some(quiz) => match score_quiz(quiz, &entry.1) {
                    None => {
                        assert(quiz.questions@.len() > 0 ==> !(total_points(
                            self.quiz@,
                            user_state@,
                        ) <= u32::MAX));
                        assert(quiz.questions@.len() == 0 ==> !entry_scorable(
                            self.quiz@,
                            answers[i as int],
                        ));
                        return None;
                    },
                    Some(earned) => {
                        if earned > u32::MAX - sum {
                            return None;
                        }
                        sum += earned;
                    },
                },
            }
            i += 1;
        }
        proof {
            assert(answers.take(answers.len() as int) =~= answers);
        }
        let mut k: usize = 0;
        let ghost quiz_sum = sum;
        while k < user_state.wheels.len()
            invariant
                wheels == wheels_view(user_state.wheels@),
                k <= wheels.len(),
                quiz_sum == answers_score(self.quiz@, answers),
                sum == quiz_sum + wheels_score(wheels.take(k as int)),
                answers == user_state@.answers,
                wheels == user_state@.wheels,
                forall|j: int|
                    0 <= j < answers.len() ==> entry_scorable(self.quiz@, #[trigger] answers[j]),
            decreases wheels.len() - k,
        {
            proof {
                lemma_wheels_score_monotone(wheels, k as int);
                lemma_wheels_score_monotone(wheels, k + 1);
            }
            let drawn = user_state.wheels[k].1;
            if drawn as u32 > u32::MAX - sum {
                return None;
            }
            sum += drawn as u32;
            k += 1;
        }
        proof {
            assert(wheels.take(wheels.len() as int) =~= wheels);
        }
        Some(sum)
    }

    /// The points of the session.
    pub fn points(&self, user_state: &UserState) -> (points: u32)
        requires
            scorable(self.quizzes(), user_state@),
        ensures
            points == total_points(self.quizzes(), user_state@),
    {
        self.checked_points(user_state).unwrap()
    }
}

impl QuizController {
    /// The codes that the submitted texts redeem at `now`, with their
    /// points, in the order of the code texts.
    pub fn redeem(&self, codes: &Vec<String>, now: Timestamp) -> (matched: Vec<(String, u32)>)
        ensures
            redeemed_view(matched@) == redeemed(self.code_list(), texts(codes@), now),
    {
        let ghost submitted = texts(codes@);
        let mut matched: Vec<(String, u32)> = Vec::new();
        let mut i: usize = 0;
        proof {
            assert(redeemed_view(matched@) =~= redeemed(self.codes@, submitted.take(0), now));
        }
        while i < codes.len()
            invariant
                submitted == texts(codes@),
                i <= submitted.len(),
                redeemed_view(matched@) == redeemed(self.codes@, submitted.take(i as int), now),
            decreases submitted.len() - i,
        {
            proof {
                assert(submitted.take(i + 1).drop_last() =~= submitted.take(i as int));
                assert(submitted.take(i + 1).last() == codes@[i as int]@);
            }
            if !submitted_before(codes, i) {
                match self.code_named(codes[i].as_str()) {
                    None => {},
                    Some(code) => {
                        if code.valid_from.not_after(&now) && now.not_after(&code.valid_to) {
                            insert_redeemed(&mut matched, code);
                        }
                    },
                }
            }
            i += 1;
        }
        proof {
            assert(submitted.take(submitted.len() as int) =~= submitted);
        }
        matched
    }

    /// Whether the session and the submitted codes can be redeemed at
    /// `now`: the session can be scored and the points fit.
    pub fn can_register(&self, codes: &Vec<String>, user_state: &UserState, now: Timestamp) -> (ok:
        bool)
        ensures
            ok == registrable(self.quizzes(), self.code_list(), texts(codes@), user_state@, now),
    {
        let base = match self.checked_points(user_state) {
            Some(points) => points,
            None => {
                return false;
            },
        };
        let matched = self.redeem(codes, now);
        sum_code_points(base, &matched).is_some()
    }

    /// Redeems the session and the submitted codes at `now`: the points,
    /// and the record to append if there are any points.
    pub fn register_user(
        &self,
        codes: &Vec<String>,
        email: &str,
        consent: bool,
        user_state: &UserState,
        now: Timestamp,
    ) -> (outcome: (u32, Option<UserRecord>))
        requires
            registrable(self.quizzes(), self.code_list(), texts(codes@), user_state@, now),
        ensures
            outcome.0 == registration_points(
                self.quizzes(),
                self.code_list(),
                texts(codes@),
                user_state@,
                now,
            ),
            outcome.0 == 0 ==> outcome.1.is_none(),
            outcome.0 > 0 ==> (outcome.1 matches Some(r) && is_record(
                r,
                user_state@.id,
                email@,
                outcome.0,
                keys(redeemed(self.code_list(), texts(codes@), now)),
                consent,
                now,
            )),
    {
        let base = self.points(user_state);
        let matched = self.redeem(codes, now);
        let points = sum_code_points(base, &matched).unwrap();
        if points > 0 {
            let record = UserRecord {
                id: hex_encode(user_state.id().0.as_slice()),
                email: email.to_owned(),
                points,
                codes: join_names(&matched),
                consent,
                time: now,
            };
            (points, Some(record))
        } else {
            (points, None)
        }
    }

    /// Redeems the session and the submitted codes at `now` where that can
    /// be done; `None` where the session cannot be scored or the points do
    /// not fit.
    pub fn checked_register(
        &self,
        codes: &Vec<String>,
        email: &str,
        consent: bool,
        user_state: &UserState,
        now: Timestamp,
    ) -> (outcome: Option<(u32, Option<UserRecord>)>)
        ensures
            outcome is Some <==> registrable(
                self.quizzes(),
                self.code_list(),
                texts(codes@),
                user_state@,
                now,
            ),
            outcome matches Some((points, record)) ==> (points == registration_points(
                self.quizzes(),
                self.code_list(),
                texts(codes@),
                user_state@,
                now,
            ) && (points == 0 ==> record.is_none()) && (points > 0 ==> (record matches Some(r)
                && is_record(
                r,
                user_state@.id,
                email@,
                points,
                keys(redeemed(self.code_list(), texts(codes@), now)),
                consent,
                now,
            )))),
    {
        if self.can_register(codes, user_state, now) {
            Some(self.register_user(codes, email, consent, user_state, now))
        } else {
            None
        }
    }
}

} // verus!
