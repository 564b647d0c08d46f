use quiz_session::controllers::{is_correct, wheel_table, QuizController};
use quiz_session::models::{Quiz, QuizQuestion, UserId, UserState, Wheel};

fn question(text: &str, correct: &[&str], incorrect: &[&str]) -> QuizQuestion {
    QuizQuestion {
        question: text.to_string(),
        correct: correct.iter().map(|s| s.to_string()).collect(),
        incorrect: incorrect.iter().map(|s| s.to_string()).collect(),
    }
}

fn quiz(name: &str, points: u32, questions: usize) -> Quiz {
    Quiz {
        name: name.to_string(),
        points,
        questions: (0..questions)
            .map(|i| question(&format!("{} {}", name, i), &["yes", "Yes"], &["no"]))
            .collect(),
    }
}

fn controller() -> QuizController {
    QuizController::new(
        vec![1, 2, 3],
        vec![quiz("hundred", 100, 4), quiz("seven", 7, 3), quiz("none", 50, 0)],
        vec![],
        vec![Wheel { name: "lucky".to_string() }, Wheel { name: "bonus".to_string() }],
    )
}

fn fresh() -> UserState {
    UserState::new(UserId([9; 16]))
}

#[test]
fn first_question_comes_first() {
    let c = controller();
    let state = fresh();
    assert_eq!(c.next_question("hundred", &state).unwrap().question, "hundred 0");
    assert_eq!(c.next_question("seven", &state).unwrap().question, "seven 0");
}

#[test]
fn unknown_quiz_has_no_question() {
    let c = controller();
    let mut state = fresh();
    assert!(c.next_question("missing", &state).is_none());
    assert!(c.next_question("", &state).is_none());
    assert!(c.next_question("Hundred", &state).is_none());
    assert!(c.answer_question("missing", &mut state, "yes").is_none());
    assert_eq!(state, fresh());
}

#[test]
fn quiz_without_questions_has_no_question() {
    let c = controller();
    let mut state = fresh();
    assert!(c.next_question("none", &state).is_none());
    assert!(c.answer_question("none", &mut state, "yes").is_none());
    assert_eq!(state, fresh());
}

#[test]
fn answers_are_matched_letter_for_letter() {
    let q = question("q", &["Paris", "paris "], &["Rome"]);
    assert!(is_correct(&q, "Paris"));
    assert!(is_correct(&q, "paris "));
    assert!(!is_correct(&q, "paris"));
    assert!(!is_correct(&q, "PARIS"));
    assert!(!is_correct(&q, "Rome"));
    assert!(!is_correct(&q, ""));
    assert!(!is_correct(&question("q", &[], &["x"]), "x"));
}

#[test]
fn answering_moves_to_the_next_question() {
    let c = controller();
    let mut state = fresh();
    let (correct, asked) = c.answer_question("hundred", &mut state, "yes").unwrap();
    assert!(correct);
    assert_eq!(asked.question, "hundred 0");
    assert_eq!(state.answers("hundred"), Some(&vec![true]));
    assert_eq!(c.next_question("hundred", &state).unwrap().question, "hundred 1");
    let (correct, asked) = c.answer_question("hundred", &mut state, "no").unwrap();
    assert!(!correct);
    assert_eq!(asked.question, "hundred 1");
    assert_eq!(state.answers("hundred"), Some(&vec![true, false]));
    assert!(state.answers("seven").is_none());
}

#[test]
fn progress_grows_by_one_and_stops_at_the_end() {
    let c = controller();
    let mut state = fresh();
    for n in 0..4 {
        assert_eq!(state.answers("hundred").map_or(0, |a| a.len()), n);
        let answer = if n % 2 == 0 { "yes" } else { "maybe" };
        assert!(c.answer_question("hundred", &mut state, answer).is_some());
        assert_eq!(state.answers("hundred").unwrap().len(), n + 1);
    }
    let done = state.clone();
    for _ in 0..3 {
        assert!(c.next_question("hundred", &state).is_none());
        assert!(c.answer_question("hundred", &mut state, "yes").is_none());
        assert_eq!(state, done);
    }
    assert_eq!(state.answers("hundred"), Some(&vec![true, false, true, false]));
}

#[test]
fn quizzes_progress_apart() {
    let c = controller();
    let mut state = fresh();
    c.answer_question("seven", &mut state, "yes").unwrap();
    c.answer_question("hundred", &mut state, "no").unwrap();
    c.answer_question("seven", &mut state, "no").unwrap();
    assert_eq!(state.answers("seven"), Some(&vec![true, false]));
    assert_eq!(state.answers("hundred"), Some(&vec![false]));
    assert_eq!(c.next_question("seven", &state).unwrap().question, "seven 2");
    assert_eq!(c.next_question("hundred", &state).unwrap().question, "hundred 1");
}

#[test]
fn three_of_four_correct_is_seventy_five() {
    let c = controller();
    let mut state = fresh();
    for answer in ["yes", "yes", "no", "yes"] {
        c.answer_question("hundred", &mut state, answer).unwrap();
    }
    assert_eq!(c.points(&state), 75);
    assert_eq!(c.checked_points(&state), Some(75));
}

#[test]
fn two_of_four_answered_is_fifty() {
    let c = controller();
    let mut state = fresh();
    c.answer_question("hundred", &mut state, "yes").unwrap();
    c.answer_question("hundred", &mut state, "Yes").unwrap();
    assert_eq!(c.points(&state), 50);
}

#[test]
fn scores_are_rounded_down() {
    let c = controller();
    let mut state = fresh();
    c.answer_question("seven", &mut state, "yes").unwrap();
    assert_eq!(c.points(&state), 2);
    c.answer_question("seven", &mut state, "yes").unwrap();
    assert_eq!(c.points(&state), 4);
    c.answer_question("seven", &mut state, "yes").unwrap();
    assert_eq!(c.points(&state), 7);
}

#[test]
fn wrong_answers_score_nothing() {
    let c = controller();
    let mut state = fresh();
    assert_eq!(c.points(&state), 0);
    for _ in 0..4 {
        c.answer_question("hundred", &mut state, "no").unwrap();
    }
    assert_eq!(c.points(&state), 0);
}

#[test]
fn quizzes_and_wheels_add_up() {
    let c = controller();
    let mut state = fresh();
    for answer in ["yes", "yes", "no", "yes"] {
        c.answer_question("hundred", &mut state, answer).unwrap();
    }
    c.answer_question("seven", &mut state, "yes").unwrap();
    assert_eq!(c.record_spin("lucky", &mut state, 40), Some(40));
    assert_eq!(c.record_spin("bonus", &mut state, 60), Some(60));
    assert_eq!(c.points(&state), 75 + 2 + 40 + 60);
}

#[test]
fn unknown_quiz_in_state_scores_nothing() {
    let c = controller();
    let mut state = fresh();
    state.push_answer("removed", true);
    state.push_answer("removed", true);
    c.answer_question("hundred", &mut state, "yes").unwrap();
    assert_eq!(c.points(&state), 25);
}

#[test]
fn unknown_wheel_in_state_still_counts() {
    let c = controller();
    let mut state = fresh();
    state.set_wheel("removed", 200);
    assert_eq!(c.points(&state), 200);
}

#[test]
fn more_answers_than_questions_score_by_the_count() {
    let c = controller();
    let mut state = fresh();
    for _ in 0..6 {
        state.push_answer("seven", true);
    }
    assert_eq!(c.points(&state), 14);
    assert!(c.next_question("seven", &state).is_none());
}

#[test]
fn answered_quiz_without_questions_cannot_be_scored() {
    let c = controller();
    let mut state = fresh();
    state.push_answer("none", true);
    assert_eq!(c.checked_points(&state), None);
}

#[test]
fn points_that_do_not_fit_cannot_be_scored() {
    let c = QuizController::new(
        vec![],
        vec![quiz("big", u32::MAX, 1), quiz("one", 1, 1)],
        vec![],
        vec![],
    );
    let mut state = fresh();
    c.answer_question("big", &mut state, "yes").unwrap();
    assert_eq!(c.checked_points(&state), Some(u32::MAX));
    c.answer_question("one", &mut state, "no").unwrap();
    assert_eq!(c.checked_points(&state), Some(u32::MAX));
    let mut over = state.clone();
    over.set_wheel("w", 1);
    assert_eq!(c.checked_points(&over), None);
    let mut twice = fresh();
    twice.push_answer("big", true);
    twice.push_answer("big", true);
    assert_eq!(c.checked_points(&twice), None);
}

#[test]
fn large_points_do_not_overflow_on_the_way() {
    let c = QuizController::new(vec![], vec![quiz("big", u32::MAX, 3)], vec![], vec![]);
    let mut state = fresh();
    c.answer_question("big", &mut state, "yes").unwrap();
    c.answer_question("big", &mut state, "yes").unwrap();
    assert_eq!(c.points(&state), 2863311530);
}

#[test]
fn last_quiz_of_a_name_wins() {
    let c = QuizController::new(
        vec![],
        vec![quiz("twice", 10, 1), quiz("other", 1, 1), quiz("twice", 30, 3)],
        vec![],
        vec![],
    );
    assert_eq!(c.quiz_named("twice").unwrap().points, 30);
    assert_eq!(c.quiz_named("other").unwrap().points, 1);
    assert!(c.quiz_named("thrice").is_none());
    let mut state = fresh();
    c.answer_question("twice", &mut state, "yes").unwrap();
    assert_eq!(c.points(&state), 10);
    assert!(c.next_question("twice", &state).is_some());
}

#[test]
fn spin_gives_twenty_forty_or_sixty() {
    let c = controller();
    let mut seen = [false; 3];
    for _ in 0..200 {
        let mut state = fresh();
        let points = c.spin_wheel("lucky", &mut state).unwrap();
        assert!(points == 20 || points == 40 || points == 60);
        assert_eq!(state.wheel("lucky"), Some(points as u8));
        assert_eq!(c.points(&state), points);
        seen[(points / 20 - 1) as usize] = true;
    }
    assert_eq!(seen, [true, true, true]);
}

#[test]
fn wheel_is_spun_once() {
    let c = controller();
    let mut state = fresh();
    let first = c.spin_wheel("lucky", &mut state).unwrap();
    let after = state.clone();
    for _ in 0..20 {
        assert_eq!(c.spin_wheel("lucky", &mut state), None);
        assert_eq!(state, after);
    }
    assert_eq!(state.wheel("lucky"), Some(first as u8));
    assert_eq!(c.record_spin("lucky", &mut state, 60), None);
    assert_eq!(state, after);
    assert!(c.spin_wheel("bonus", &mut state).is_some());
    assert_eq!(state.wheel("lucky"), Some(first as u8));
}

#[test]
fn unknown_wheel_gives_nothing() {
    let c = controller();
    let mut state = fresh();
    assert_eq!(c.spin_wheel("missing", &mut state), None);
    assert_eq!(c.spin_wheel("Lucky", &mut state), None);
    assert_eq!(c.record_spin("missing", &mut state, 20), None);
    assert_eq!(state, fresh());
    assert!(c.knows_wheel("lucky"));
    assert!(!c.knows_wheel("missing"));
}

#[test]
fn recorded_spin_is_what_was_drawn() {
    let c = controller();
    let mut state = fresh();
    assert_eq!(c.record_spin("bonus", &mut state, 20), Some(20));
    assert_eq!(state.wheel("bonus"), Some(20));
    assert_eq!(state.wheel("lucky"), None);
    assert!(state.answers("bonus").is_none());
}

#[test]
fn smaller_prizes_are_drawn_more_often() {
    let c = controller();
    let mut counts = [0u32; 3];
    for _ in 0..6000 {
        let mut state = fresh();
        let points = c.spin_wheel("bonus", &mut state).unwrap();
        counts[(points / 20 - 1) as usize] += 1;
    }
    assert!(counts[0] > counts[1] && counts[1] > counts[2], "{:?}", counts);
}

#[test]
fn empty_entry_for_a_quiz_without_questions_scores_nothing() {
    let c = QuizController::new(vec![], vec![quiz("q", 10, 0)], vec![], vec![]);
    let state = UserState::from_parts([0; 16], vec![("q".to_string(), vec![])], vec![]).unwrap();
    assert_eq!(c.checked_points(&state), Some(0));
    assert_eq!(c.points(&state), 0);
}

#[test]
fn empty_entries_score_nothing() {
    let c = controller();
    let entries = vec![
        ("hundred".to_string(), vec![]),
        ("missing".to_string(), vec![]),
        ("none".to_string(), vec![]),
        ("seven".to_string(), vec![true]),
    ];
    let state = UserState::from_parts([0; 16], entries, vec![]).unwrap();
    assert_eq!(c.points(&state), 2);
}

#[test]
fn wheel_table_is_fixed() {
    assert_eq!(wheel_table(), vec![(20, 3), (40, 2), (60, 1)]);
}
