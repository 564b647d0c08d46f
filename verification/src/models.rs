//! The catalog's records and the state of one user's session.

use vstd::prelude::*;
use crate::assoc::{
    entry_keys, increasing, keys, keys_increasing, lemma_put_increasing, lookup, position, put,
};
use crate::text::str_eq;

verus! {

/// An instant: seconds since the Unix epoch and the nanoseconds within that
/// second.
#[derive(Clone, Copy, Debug, PartialEq, Eq)]
pub struct Timestamp {
    pub secs: i64,
    pub nanos: u32,
}

impl Timestamp {
    /// `self` is not later than `other`.
    pub open spec fn le(self, other: Timestamp) -> bool {
        self.secs < other.secs || (self.secs == other.secs && self.nanos <= other.nanos)
    }

    /// Whether `self` is not later than `other`.
    pub fn not_after(&self, other: &Timestamp) -> (r: bool)
        ensures
            r == self.le(*other),
    {
        self.secs < other.secs || (self.secs == other.secs && self.nanos <= other.nanos)
    }
}

/// A promotional code, worth `points` from `valid_from` to `valid_to`, both
/// ends included.
#[derive(Clone, Debug)]
pub struct Code {
    pub code: String,
    pub points: u32,
    pub valid_from: Timestamp,
    pub valid_to: Timestamp,
}

/// A quiz: `points` for a perfect score over its questions.
#[derive(Clone, Debug)]
pub struct Quiz {
    pub name: String,
    pub points: u32,
    pub questions: Vec<QuizQuestion>,
}

/// One question with its right and wrong answers.
#[derive(Clone, Debug)]
pub struct QuizQuestion {
    pub question: String,
    pub correct: Vec<String>,
    pub incorrect: Vec<String>,
}

/// A prize wheel, known by its name.
#[derive(Clone, Debug)]
pub struct Wheel {
    pub name: String,
}

/// The catalog as it is configured: codes, quizzes and wheels.
#[derive(Clone, Debug)]
pub struct Config {
    pub code: Vec<Code>,
    pub quiz: Vec<Quiz>,
    pub wheel: Vec<Wheel>,
}

/// The sixteen bytes that name a user in a redemption record.
#[derive(Clone, Debug, PartialEq, Eq)]
pub struct UserId(pub [u8; 16]);

/// One redemption, as it is appended to the log.
#[derive(Clone, Debug, PartialEq, Eq)]
pub struct UserRecord {
    pub id: String,
    pub email: String,
    pub points: u32,
    pub codes: String,
    pub consent: bool,
    pub time: Timestamp,
}

/// Why a token was not accepted.
#[derive(Clone, Copy, Debug, PartialEq, Eq)]
pub enum AuthError {
    /// A part is missing or is not base64.
    Malformed,
    /// The signature is not that of the payload.
    InvalidSignature,
    /// The payload is signed but is not a user state.
    Corrupt,
}

/// A user's whole session: the answers given so far, quiz by quiz, and the
/// points drawn from each wheel. Both are kept in key order.
#[derive(Debug, PartialEq, Eq)]
pub struct UserState {
    pub(crate) id: UserId,
    pub(crate) answers: Vec<(String, Vec<bool>)>,
    pub(crate) wheels: Vec<(String, u8)>,
}

/// What a `UserState` holds.
pub struct UserStateView {
    pub id: Seq<u8>,
    pub answers: Seq<(Seq<char>, Seq<bool>)>,
    pub wheels: Seq<(Seq<char>, u8)>,
}

impl UserStateView {
    /// Sixteen identifying bytes, and both lists in strictly increasing key
    /// order.
    pub open spec fn wf(self) -> bool {
        &&& self.id.len() == 16
        &&& increasing(keys(self.answers))
        &&& increasing(keys(self.wheels))
    }

    /// The answers recorded for `quiz`; none recorded is the empty sequence.
    pub open spec fn answers_for(self, quiz: Seq<char>) -> Seq<bool> {
        match lookup(self.answers, quiz) {
            Some(a) => a,
            None => Seq::empty(),
        }
    }
}

/// What a list of answer entries holds.
pub open spec fn answers_view(entries: Seq<(String, Vec<bool>)>) -> Seq<(Seq<char>, Seq<bool>)> {
    entries.map_values(|e: (String, Vec<bool>)| (e.0@, e.1@))
}

/// What a list of wheel entries holds.
pub open spec fn wheels_view(entries: Seq<(String, u8)>) -> Seq<(Seq<char>, u8)> {
    entries.map_values(|e: (String, u8)| (e.0@, e.1))
}

impl View for UserState {
    type V = UserStateView;

    closed spec fn view(&self) -> UserStateView {
        UserStateView {
            id: self.id.0@,
            answers: answers_view(self.answers@),
            wheels: wheels_view(self.wheels@),
        }
    }
}

impl Clone for UserState {
    /// A session that holds the same as this one.
    fn clone(&self) -> (copy: UserState)
        ensures
            copy@ == self@,
    {
        proof {
            use_type_invariant(self);
        }
        let mut answers: Vec<(String, Vec<bool>)> = Vec::new();
        let mut i: usize = 0;
        while i < self.answers.len()
            invariant
                i <= self.answers@.len(),
                answers@.len() == i,
                forall|k: int|
                    0 <= k < i ==> (#[trigger] answers@[k]).0@ == self.answers@[k].0@
                        && answers@[k].1@ == self.answers@[k].1@,
            decreases self.answers@.len() - i,
        {
            let list = self.answers[i].1.clone();
            assert(list@ =~= self.answers[i as int].1@);
            answers.push((self.answers[i].0.clone(), list));
            i += 1;
        }
        let mut wheels: Vec<(String, u8)> = Vec::new();
        let mut j: usize = 0;
        while j < self.wheels.len()
            invariant
                j <= self.wheels@.len(),
                wheels@.len() == j,
                forall|k: int|
                    0 <= k < j ==> (#[trigger] wheels@[k]).0@ == self.wheels@[k].0@
                        && wheels@[k].1 == self.wheels@[k].1,
            decreases self.wheels@.len() - j,
        {
            wheels.push((self.wheels[j].0.clone(), self.wheels[j].1));
            j += 1;
        }
        proof {
            assert(answers_view(answers@) =~= answers_view(self.answers@));
            assert(wheels_view(wheels@) =~= wheels_view(self.wheels@));
        }
        UserState { id: UserId(self.id.0), answers, wheels }
    }
}

impl UserState {
    /// Holds of every session: what it holds is well formed.
    #[verifier::type_invariant]
    pub open spec fn inv(self) -> bool {
        self@.wf()
    }

    /// The view is made of the three fields.
    pub(crate) proof fn lemma_view(self)
        ensures
            self@.id == self.id.0@,
            self@.answers == answers_view(self.answers@),
            self@.wheels == wheels_view(self.wheels@),
    {
    }

    /// A session in which nothing has been answered or spun.
    pub fn new(id: UserId) -> (state: UserState)
        ensures
            state@.id == id.0@,
            state@.answers == Seq::<(Seq<char>, Seq<bool>)>::empty(),
            state@.wheels == Seq::<(Seq<char>, u8)>::empty(),
    {
        let state = UserState { id, answers: Vec::new(), wheels: Vec::new() };
        proof {
            assert(state@.answers =~= Seq::<(Seq<char>, Seq<bool>)>::empty());
            assert(state@.wheels =~= Seq::<(Seq<char>, u8)>::empty());
        }
        state
    }

    /// The user's identifier.
    pub fn id(&self) -> (id: &UserId)
        ensures
            id.0@ == self@.id,
    {
        &self.id
    }

    /// The answers recorded for `quiz`, if any were.
    pub fn answers(&self, quiz: &str) -> (found: Option<&Vec<bool>>)
        ensures
            match found {
                Some(a) => lookup(self@.answers, quiz@) == Some(a@),
                None => lookup(self@.answers, quiz@).is_none(),
            },
    {
        let r = position(&self.answers, quiz);
        proof {
            assert(keys(self@.answers) =~= entry_keys(self.answers@));
        }
        if r < self.answers.len() && str_eq(self.answers[r].0.as_str(), quiz) {
            Some(&self.answers[r].1)
        } else {
            None
        }
    }

    /// The points drawn from `wheel`, if it was spun.
    pub fn wheel(&self, wheel: &str) -> (found: Option<u8>)
        ensures
            found == lookup(self@.wheels, wheel@),
    {
        let r = position(&self.wheels, wheel);
        proof {
            assert(keys(self@.wheels) =~= entry_keys(self.wheels@));
        }
        if r < self.wheels.len() && str_eq(self.wheels[r].0.as_str(), wheel) {
            Some(self.wheels[r].1)
        } else {
            None
        }
    }

    /// The session that holds exactly these entries, if both lists are in
    /// strictly increasing key order.
    pub fn from_parts(
        id: [u8; 16],
        answers: Vec<(String, Vec<bool>)>,
        wheels: Vec<(String, u8)>,
    ) -> (state: Option<UserState>)
        ensures
            state is Some <==> increasing(keys(answers_view(answers@))) && increasing(
                keys(wheels_view(wheels@)),
            ),
            state matches Some(s) ==> s@ == (UserStateView {
                id: id@,
                answers: answers_view(answers@),
                wheels: wheels_view(wheels@),
            }),
    {
        proof {
            assert(keys(answers_view(answers@)) =~= entry_keys(answers@));
            assert(keys(wheels_view(wheels@)) =~= entry_keys(wheels@));
        }
        if keys_increasing(&answers) && keys_increasing(&wheels) {
            Some(UserState { id: UserId(id), answers, wheels })
        } else {
            None
        }
    }

    /// Appends `correct` to the answers recorded for `quiz`, starting a new
    /// list if there was none.
    pub fn push_answer(&mut self, quiz: &str, correct: bool)
        ensures
            final(self)@.id == old(self)@.id,
            final(self)@.wheels == old(self)@.wheels,
            final(self)@.answers == put(
                old(self)@.answers,
                quiz@,
                old(self)@.answers_for(quiz@).push(correct),
            ),
    {
        proof {
            use_type_invariant(&*self);
            assert(keys(self@.answers) =~= entry_keys(self.answers@));
            lemma_put_increasing(self@.answers, quiz@, self@.answers_for(quiz@).push(correct));
        }
        let mut answers: Vec<(String, Vec<bool>)> = Vec::new();
        std::mem::swap(&mut self.answers, &mut answers);
        let r = position(&answers, quiz);
        if r < answers.len() && str_eq(answers[r].0.as_str(), quiz) {
            answers[r].1.push(correct);
        } else {
            let mut list: Vec<bool> = Vec::new();
            list.push(correct);
            assert(list@ =~= Seq::<bool>::empty().push(correct));
            answers.insert(r, (quiz.to_owned(), list));
        }
        proof {
            assert(answers_view(answers@) =~= put(
                old(self)@.answers,
                quiz@,
                old(self)@.answers_for(quiz@).push(correct),
            ));
        }
        self.answers = answers;
    }

    /// Records `points` as what `wheel` gave.
    pub fn set_wheel(&mut self, wheel: &str, points: u8)
        ensures
            final(self)@.id == old(self)@.id,
            final(self)@.answers == old(self)@.answers,
            final(self)@.wheels == put(old(self)@.wheels, wheel@, points),
    {
        proof {
            use_type_invariant(&*self);
            assert(keys(self@.wheels) =~= entry_keys(self.wheels@));
            lemma_put_increasing(self@.wheels, wheel@, points);
        }
        let mut wheels: Vec<(String, u8)> = Vec::new();
        std::mem::swap(&mut self.wheels, &mut wheels);
        let r = position(&wheels, wheel);
        if r < wheels.len() && str_eq(wheels[r].0.as_str(), wheel) {
            wheels[r].1 = points;
        } else {
            wheels.insert(r, (wheel.to_owned(), points));
        }
        proof {
            assert(wheels_view(wheels@) =~= put(old(self)@.wheels, wheel@, points));
        }
        self.wheels = wheels;
    }
}

} // verus!
