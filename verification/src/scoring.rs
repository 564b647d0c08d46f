//! What a session is worth: for each answered quiz that the catalog knows,
//! the quiz's points times the share of correct answers among all of its
//! questions, rounded down; plus what the wheels gave.

use vstd::prelude::*;
use crate::catalog::find_quiz;
use crate::models::{Quiz, UserStateView};

verus! {

/// The number of `true` marks.
pub open spec fn count_true(answers: Seq<bool>) -> nat
    decreases answers.len(),
{
    if answers.len() == 0 {
        0
    } else {
        count_true(answers.drop_last()) + if answers.last() {
            1nat
        } else {
            0nat
        }
    }
}

/// The points earned in one quiz: `points * correct / questions`, rounded
/// down. The divisor is the number of the quiz's questions, however many
/// were answered.
pub open spec fn quiz_score(quiz: Quiz, answers: Seq<bool>) -> int {
    if quiz.questions@.len() == 0 {
        0
    } else {
        (quiz.points as int * count_true(answers) as int) / (quiz.questions@.len() as int)
    }
}

/// What one answered quiz adds: nothing if the catalog does not know it.
pub open spec fn entry_score(quizzes: Seq<Quiz>, entry: (Seq<char>, Seq<bool>)) -> int {
    match find_quiz(quizzes, entry.0) {
        Some(quiz) => quiz_score(quiz, entry.1),
        None => 0,
    }
}

/// The points earned in all answered quizzes.
pub open spec fn answers_score(quizzes: Seq<Quiz>, answers: Seq<(Seq<char>, Seq<bool>)>) -> int
    decreases answers.len(),
{
    if answers.len() == 0 {
        0
    } else {
        answers_score(quizzes, answers.drop_last()) + entry_score(quizzes, answers.last())
    }
}

/// The points that the wheels gave.
pub open spec fn wheels_score(wheels: Seq<(Seq<char>, u8)>) -> int
    decreases wheels.len(),
{
    if wheels.len() == 0 {
        0
    } else {
        wheels_score(wheels.drop_last()) + wheels.last().1
    }
}

/// The points of a session.
pub open spec fn total_points(quizzes: Seq<Quiz>, state: UserStateView) -> int {
    answers_score(quizzes, state.answers) + wheels_score(state.wheels)
}

/// An entry can be scored unless it holds answers to a quiz that the
/// catalog knows as one without questions. An entry without answers scores
/// nothing, whatever the quiz.
pub open spec fn entry_scorable(quizzes: Seq<Quiz>, entry: (Seq<char>, Seq<bool>)) -> bool {
    match find_quiz(quizzes, entry.0) {
        Some(quiz) => quiz.questions@.len() > 0 || entry.1.len() == 0,
        None => true,
    }
}

/// A session can be scored if each answered quiz can and the total fits in
/// a `u32`.
pub open spec fn scorable(quizzes: Seq<Quiz>, state: UserStateView) -> bool {
    &&& forall|i: int|
        0 <= i < state.answers.len() ==> entry_scorable(quizzes, #[trigger] state.answers[i])
    &&& total_points(quizzes, state) <= u32::MAX
}

/// No more marks are `true` than there are marks.
pub proof fn lemma_count_true_bound(answers: Seq<bool>)
    ensures
        count_true(answers) <= answers.len(),
    decreases answers.len(),
{
    if answers.len() > 0 {
        lemma_count_true_bound(answers.drop_last());
    }
}

/// A quiz never takes points away, and gives at most its own points while
/// no more answers are recorded than it has questions.
pub proof fn lemma_quiz_score_bounds(quiz: Quiz, answers: Seq<bool>)
    ensures
        0 <= quiz_score(quiz, answers),
        answers.len() <= quiz.questions@.len() ==> quiz_score(quiz, answers) <= quiz.points,
{
    lemma_count_true_bound(answers);
    let p = quiz.points as int;
    let c = count_true(answers) as int;
    let n = quiz.questions@.len() as int;
    if n > 0 {
        assert(0 <= (p * c) / n) by (nonlinear_arith)
            requires
                0 <= p,
                0 <= c,
                0 < n,
        ;
        if answers.len() <= n {
            assert((p * c) / n <= p) by (nonlinear_arith)
                requires
                    0 <= p,
                    0 <= c <= n,
                    0 < n,
            ;
        }
    }
}

/// The quizzes answered so far never score more than all of them, nor
/// less than nothing.
pub proof fn lemma_answers_score_monotone(
    quizzes: Seq<Quiz>,
    answers: Seq<(Seq<char>, Seq<bool>)>,
    i: int,
)
    requires
        0 <= i <= answers.len(),
    ensures
        0 <= answers_score(quizzes, answers.take(i)) <= answers_score(quizzes, answers),
    decreases answers.len() - i,
{
    if i == answers.len() {
        assert(answers.take(i) =~= answers);
        lemma_answers_score_nonnegative(quizzes, answers);
    } else {
        lemma_answers_score_monotone(quizzes, answers, i + 1);
        lemma_answers_score_step(quizzes, answers, i);
        lemma_answers_score_nonnegative(quizzes, answers.take(i));
    }
}

/// Scores are never negative.
pub proof fn lemma_answers_score_nonnegative(
    quizzes: Seq<Quiz>,
    answers: Seq<(Seq<char>, Seq<bool>)>,
)
    ensures
        0 <= answers_score(quizzes, answers),
    decreases answers.len(),
{
    if answers.len() > 0 {
        lemma_answers_score_nonnegative(quizzes, answers.drop_last());
        match find_quiz(quizzes, answers.last().0) {
            Some(quiz) => lemma_quiz_score_bounds(quiz, answers.last().1),
            None => {},
        }
    }
}

/// One more answered quiz adds its own score, which is not negative.
pub proof fn lemma_answers_score_step(
    quizzes: Seq<Quiz>,
    answers: Seq<(Seq<char>, Seq<bool>)>,
    i: int,
)
    requires
        0 <= i < answers.len(),
    ensures
        answers_score(quizzes, answers.take(i + 1)) == answers_score(quizzes, answers.take(i))
            + entry_score(quizzes, answers[i]),
        0 <= entry_score(quizzes, answers[i]),
{
    assert(answers.take(i + 1).drop_last() =~= answers.take(i));
    match find_quiz(quizzes, answers[i].0) {
        Some(quiz) => lemma_quiz_score_bounds(quiz, answers[i].1),
        None => {},
    }
}

/// The wheels spun so far never gave more than all of them, nor less than
/// nothing; one more wheel adds what it gave.
pub proof fn lemma_wheels_score_monotone(wheels: Seq<(Seq<char>, u8)>, i: int)
    requires
        0 <= i <= wheels.len(),
    ensures
        0 <= wheels_score(wheels.take(i)) <= wheels_score(wheels),
        i < wheels.len() ==> wheels_score(wheels.take(i + 1)) == wheels_score(wheels.take(i))
            + wheels[i].1,
    decreases wheels.len() - i,
{
    lemma_wheels_score_nonnegative(wheels.take(i));
    if i == wheels.len() {
        assert(wheels.take(i) =~= wheels);
    } else {
        lemma_wheels_score_monotone(wheels, i + 1);
        assert(wheels.take(i + 1).drop_last() =~= wheels.take(i));
    }
}

/// Wheels never take points away.
pub proof fn lemma_wheels_score_nonnegative(wheels: Seq<(Seq<char>, u8)>)
    ensures
        0 <= wheels_score(wheels),
    decreases wheels.len(),
{
    if wheels.len() > 0 {
        lemma_wheels_score_nonnegative(wheels.drop_last());
    }
}

/// The number of `true` marks among the answers.
pub fn count_correct(answers: &Vec<bool>) -> (n: usize)
    ensures
        n == count_true(answers@),
{
    let mut n: usize = 0;
    let mut i: usize = 0;
    while i < answers.len()
        invariant
            i <= answers@.len(),
            n == count_true(answers@.take(i as int)),
            n <= i,
        decreases answers@.len() - i,
    {
        proof {
            assert(answers@.take(i + 1).drop_last() =~= answers@.take(i as int));
        }
        if answers[i] {
            n += 1;
        }
        i += 1;
    }
    proof {
        assert(answers@.take(answers@.len() as int) =~= answers@);
    }
    n
}

/// The points earned in one quiz: nothing where no answer is recorded;
/// `None` where answers are recorded to a quiz without questions, or the
/// points do not fit in a `u32`.
pub fn score_quiz(quiz: &Quiz, answers: &Vec<bool>) -> (score: Option<u32>)
    ensures
        match score {
            Some(s) => (quiz.questions@.len() > 0 || answers@.len() == 0) && s == quiz_score(
                *quiz,
                answers@,
            ),
            None => (quiz.questions@.len() == 0 && answers@.len() > 0) || quiz_score(
                *quiz,
                answers@,
            ) > u32::MAX,
        },
{
    let total = quiz.questions.len();
    if total == 0 {
        return if answers.len() == 0 {
            Some(0)
        } else {
            None
        };
    }
    let correct = count_correct(answers);
    assert(quiz.points as int * correct as int <= 0xffff_ffff * 0xffff_ffff_ffff_ffff) by (
        nonlinear_arith)
        requires
            0 <= quiz.points as int <= 0xffff_ffff,
            0 <= correct as int <= 0xffff_ffff_ffff_ffff,
    ;
    let earned: u128 = (quiz.points as u128 * correct as u128) / (total as u128);
    if earned > u32::MAX as u128 {
        None
    } else {
        Some(earned as u32)
    }
}

} // verus!
