//! How a session moves on: what one more answer and one spin change, and
//! what they leave as it was.

use vstd::prelude::*;
use crate::assoc::{
    keys, lemma_lookup_put_other, lemma_lookup_put_same, lemma_put_increasing,
    lemma_rank_bounds, lookup, rank,
};
use crate::catalog::find_quiz;
use crate::controllers::{answered, can_spin, next_question_of, spun};
use crate::models::{Quiz, UserStateView, Wheel};
use crate::scoring::{entry_scorable, entry_score, lemma_quiz_score_bounds};

verus! {

/// A wheel is spun at most once: after a spin gave `points`, these stay
/// recorded, the wheel cannot be spun again, and the other wheels are as
/// they were.
pub proof fn lemma_spin_once(
    wheels: Seq<Wheel>,
    state: UserStateView,
    wheel: Seq<char>,
    points: u8,
    other: Seq<char>,
)
    requires
        state.wf(),
    ensures
        spun(state, wheel, points).wf(),
        lookup(spun(state, wheel, points).wheels, wheel) == Some(points),
        !can_spin(wheels, spun(state, wheel, points), wheel),
        other != wheel ==> lookup(spun(state, wheel, points).wheels, other) == lookup(
            state.wheels,
            other,
        ),
{
    lemma_put_increasing(state.wheels, wheel, points);
    lemma_lookup_put_same(state.wheels, wheel, points);
    if other != wheel {
        lemma_lookup_put_other(state.wheels, wheel, points, other);
    }
}

/// Progress in a quiz only grows: one more answer makes the answers of
/// that quiz one longer, keeps what was answered before, and leaves every
/// other quiz as it was.
pub proof fn lemma_answer_progress(
    state: UserStateView,
    quiz_name: Seq<char>,
    correct: bool,
    other: Seq<char>,
)
    requires
        state.wf(),
    ensures
        answered(state, quiz_name, correct).wf(),
        answered(state, quiz_name, correct).answers_for(quiz_name) == state.answers_for(
            quiz_name,
        ).push(correct),
        other != quiz_name ==> lookup(answered(state, quiz_name, correct).answers, other)
            == lookup(state.answers, other),
{
    let marks = state.answers_for(quiz_name).push(correct);
    lemma_put_increasing(state.answers, quiz_name, marks);
    lemma_lookup_put_same(state.answers, quiz_name, marks);
    if other != quiz_name {
        lemma_lookup_put_other(state.answers, quiz_name, marks, other);
    }
}

/// Past the end of a quiz there is no next question: once as many answers
/// are recorded as the quiz has questions, or for a quiz the catalog does
/// not know.
pub proof fn lemma_finished_quiz(quizzes: Seq<Quiz>, state: UserStateView, quiz_name: Seq<char>)
    ensures
        find_quiz(quizzes, quiz_name) is None ==> next_question_of(quizzes, state, quiz_name)
            is None,
        find_quiz(quizzes, quiz_name) matches Some(quiz) ==> (next_question_of(
            quizzes,
            state,
            quiz_name,
        ) is None <==> state.answers_for(quiz_name).len() >= quiz.questions@.len()),
{
}

/// An answered quiz is within its quiz if at least one answer is recorded
/// and, where the catalog knows the quiz, no more answers than it has
/// questions.
pub open spec fn entry_within(quizzes: Seq<Quiz>, entry: (Seq<char>, Seq<bool>)) -> bool {
    &&& entry.1.len() >= 1
    &&& find_quiz(quizzes, entry.0) matches Some(quiz) ==> entry.1.len() <= quiz.questions@.len()
}

/// A session is within the catalog if each of its answered quizzes is.
pub open spec fn within(quizzes: Seq<Quiz>, state: UserStateView) -> bool {
    forall|i: int|
        0 <= i < state.answers.len() ==> entry_within(quizzes, #[trigger] state.answers[i])
}

/// A session without answers is within any catalog.
pub proof fn lemma_within_start(quizzes: Seq<Quiz>, state: UserStateView)
    requires
        state.answers.len() == 0,
    ensures
        within(quizzes, state),
{
}

/// Answering the question a user stands at keeps the session within the
/// catalog: the answers of a quiz never outnumber its questions.
pub proof fn lemma_within_answered(
    quizzes: Seq<Quiz>,
    state: UserStateView,
    quiz_name: Seq<char>,
    correct: bool,
)
    requires
        state.wf(),
        within(quizzes, state),
        next_question_of(quizzes, state, quiz_name) is Some,
    ensures
        within(quizzes, answered(state, quiz_name, correct)),
{
    let marks = state.answers_for(quiz_name).push(correct);
    let after = answered(state, quiz_name, correct).answers;
    let r = rank(keys(state.answers), quiz_name);
    lemma_rank_bounds(keys(state.answers), quiz_name);
    assert forall|i: int| 0 <= i < after.len() implies entry_within(
        quizzes,
        #[trigger] after[i],
    ) by {
        if i == r {
            assert(after[i] == (quiz_name, marks));
        } else if r < state.answers.len() && state.answers[r].0 == quiz_name {
            assert(after[i] == state.answers[i]);
        } else if i < r {
            assert(after[i] == state.answers[i]);
        } else {
            assert(after[i] == state.answers[i - 1]);
        }
    }
}

/// A spin leaves the answers alone, and so the session within the catalog.
pub proof fn lemma_within_spun(
    quizzes: Seq<Quiz>,
    state: UserStateView,
    wheel: Seq<char>,
    points: u8,
)
    requires
        within(quizzes, state),
    ensures
        within(quizzes, spun(state, wheel, points)),
{
}

/// In a session within the catalog every answered quiz can be scored, and
/// scores at most the points of its quiz.
pub proof fn lemma_within_scorable(quizzes: Seq<Quiz>, state: UserStateView, i: int)
    requires
        within(quizzes, state),
        0 <= i < state.answers.len(),
    ensures
        entry_scorable(quizzes, state.answers[i]),
        find_quiz(quizzes, state.answers[i].0) matches Some(quiz) ==> entry_score(
            quizzes,
            state.answers[i],
        ) <= quiz.points,
{
    match find_quiz(quizzes, state.answers[i].0) {
        Some(quiz) => lemma_quiz_score_bounds(quiz, state.answers[i].1),
        None => {},
    }
}

} // verus!
