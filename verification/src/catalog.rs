//! Looking things up in the catalog: quizzes and wheels by name, codes by
//! their text without regard to letter case, and an answer among a
//! question's correct answers.

use vstd::prelude::*;
use crate::models::{Code, Quiz, QuizQuestion, Wheel};
use crate::text::{lowercased, trimmed};

verus! {

/// The quiz of that name: the last one, where several carry it.
pub open spec fn find_quiz(quizzes: Seq<Quiz>, name: Seq<char>) -> Option<Quiz>
    decreases quizzes.len(),
{
    if quizzes.len() == 0 {
        None
    } else if quizzes.last().name@ == name {
        Some(quizzes.last())
    } else {
        find_quiz(quizzes.drop_last(), name)
    }
}

/// A code text as it is compared: trimmed, then in lower case.
pub open spec fn normalized(text: Seq<char>) -> Seq<char> {
    lowercased(trimmed(text))
}

/// The code that `text` names. Letter case and surrounding white space
/// count on neither side: it is the code whose text, normalized, is the
/// normalized `text`; the last one, where several are.
pub open spec fn find_code(codes: Seq<Code>, text: Seq<char>) -> Option<Code>
    decreases codes.len(),
{
    if codes.len() == 0 {
        None
    } else if normalized(codes.last().code@) == normalized(text) {
        Some(codes.last())
    } else {
        find_code(codes.drop_last(), text)
    }
}

/// A text as it is compared with code texts.
pub fn normalize(text: &str) -> (key: String)
    ensures
        key@ == normalized(text@),
{
    text.trim().to_lowercase()
}

/// Whether a wheel of that name is known.
pub open spec fn has_wheel(wheels: Seq<Wheel>, name: Seq<char>) -> bool {
    exists|i: int| 0 <= i < wheels.len() && (#[trigger] wheels[i]).name@ == name
}

/// Whether `answer` is one of the question's correct answers, letter for
/// letter.
pub open spec fn accepts(question: QuizQuestion, answer: Seq<char>) -> bool {
    exists|i: int| 0 <= i < question.correct@.len() && (#[trigger] question.correct@[i])@ == answer
}

} // verus!
