use wbl_robot::global::{
    compare_multiple_choices, get_combination_count, get_random, GlobalData, MemoryStoreQuestion,
};
use wbl_robot::response::{AnswerChoice, QuestionFormat};
use wbl_robot::dict::StrDict;

fn blank_question(choices: Vec<AnswerChoice>) -> MemoryStoreQuestion {
    MemoryStoreQuestion {
        useful_id: String::from(""),
        temp_id: String::from(""),
        format: QuestionFormat::MultiChoiceSingleAnswer,
        choices,
        correct_choices: Vec::new(),
        error_choices: Vec::new(),
        multiple_error_choices: Vec::new(),
        chosen_choices: Vec::new(),
    }
}

#[test]
fn random_choice_test() {
    let mut question = blank_question(vec![
        AnswerChoice::from_mock("1"),
        AnswerChoice::from_mock("2"),
        AnswerChoice::from_mock("3"),
        AnswerChoice::from_mock("4"),
    ]);
    let random_choice = question.random_choice().unwrap().choice_value;
    assert_eq!(
        random_choice == String::from("1")
            || random_choice == String::from("2")
            || random_choice == String::from("3")
            || random_choice == String::from("4"),
        true
    );
    question.error_choices.push(AnswerChoice::from_mock("1"));
    let random_choice = question.random_choice().unwrap().choice_value;
    assert_eq!(
        random_choice == String::from("2")
            || random_choice == String::from("3")
            || random_choice == String::from("4"),
        true
    );
    question.error_choices.push(AnswerChoice::from_mock("2"));
    let random_choice = question.random_choice().unwrap().choice_value;
    assert_eq!(
        random_choice == String::from("3") || random_choice == String::from("4"),
        true
    );
    question.error_choices.push(AnswerChoice::from_mock("3"));
    let random_choice = question.random_choice().unwrap().choice_value;
    assert_eq!(random_choice == String::from("4"), true);
}

#[test]
fn get_random_test() {
    for _ in 0..50 {
        let random = get_random(5);
        assert_eq!(
            random == 1 || random == 2 || random == 3 || random == 4 || random == 5,
            true
        );
    }
}

#[test]
fn compare_multiple_choices_test() {
    let mut a = vec![AnswerChoice::from_mock("1")];
    let mut b = vec![AnswerChoice::from_mock("1")];
    assert_eq!(compare_multiple_choices(&a, &b), true);
    a.clear();
    assert_eq!(compare_multiple_choices(&a, &b), false);
    b.clear();
    assert_eq!(compare_multiple_choices(&a, &b), true);
    a.push(AnswerChoice::from_mock("1"));
    a.push(AnswerChoice::from_mock("2"));
    b.push(AnswerChoice::from_mock("1"));
    assert_eq!(compare_multiple_choices(&a, &b), false);
    b.push(AnswerChoice::from_mock("2"));
    assert_eq!(compare_multiple_choices(&a, &b), true);
}

#[test]
fn random_choices_test() {
    let mut question = blank_question(vec![
        AnswerChoice::from_mock("1"),
        AnswerChoice::from_mock("2"),
        AnswerChoice::from_mock("3"),
        AnswerChoice::from_mock("4"),
    ]);
    for _ in 0..50 {
        let random_choices = question.random_choices().unwrap();
        assert_eq!(random_choices.len() > 0 && random_choices.len() < 5, true);
    }
    question
        .multiple_error_choices
        .push(vec![AnswerChoice::from_mock("1")]);
    question
        .multiple_error_choices
        .push(vec![AnswerChoice::from_mock("2")]);
    question
        .multiple_error_choices
        .push(vec![AnswerChoice::from_mock("3")]);
    question
        .multiple_error_choices
        .push(vec![AnswerChoice::from_mock("4")]);
    for _ in 0..50 {
        let random_choices = question.random_choices().unwrap();
        assert_eq!(random_choices.len() > 1 && random_choices.len() < 5, true);
    }
    question.multiple_error_choices.push(vec![
        AnswerChoice::from_mock("1"),
        AnswerChoice::from_mock("2"),
    ]);
    question.multiple_error_choices.push(vec![
        AnswerChoice::from_mock("1"),
        AnswerChoice::from_mock("3"),
    ]);
    question.multiple_error_choices.push(vec![
        AnswerChoice::from_mock("1"),
        AnswerChoice::from_mock("4"),
    ]);
    question.multiple_error_choices.push(vec![
        AnswerChoice::from_mock("2"),
        AnswerChoice::from_mock("3"),
    ]);
    question.multiple_error_choices.push(vec![
        AnswerChoice::from_mock("2"),
        AnswerChoice::from_mock("4"),
    ]);
    question.multiple_error_choices.push(vec![
        AnswerChoice::from_mock("3"),
        AnswerChoice::from_mock("4"),
    ]);
    for _ in 0..50 {
        let random_choices = question.random_choices().unwrap();
        assert_eq!(random_choices.len() > 2 && random_choices.len() < 5, true);
    }
    question.multiple_error_choices.push(vec![
        AnswerChoice::from_mock("1"),
        AnswerChoice::from_mock("2"),
        AnswerChoice::from_mock("3"),
    ]);
    question.multiple_error_choices.push(vec![
        AnswerChoice::from_mock("1"),
        AnswerChoice::from_mock("2"),
        AnswerChoice::from_mock("4"),
    ]);
    question.multiple_error_choices.push(vec![
        AnswerChoice::from_mock("1"),
        AnswerChoice::from_mock("3"),
        AnswerChoice::from_mock("4"),
    ]);
    question.multiple_error_choices.push(vec![
        AnswerChoice::from_mock("2"),
        AnswerChoice::from_mock("3"),
        AnswerChoice::from_mock("4"),
    ]);
    for _ in 0..50 {
        let random_choices = question.random_choices().unwrap();
        assert_eq!(random_choices.len() == 4, true);
    }
}

#[test]
fn random_choices_vary_in_size_test() {
    // With no exclusions, the drawn subsets take a random size between 1
    // and the catalog size: across many draws, a proper subset must show up.
    let question = blank_question(vec![
        AnswerChoice::from_mock("1"),
        AnswerChoice::from_mock("2"),
        AnswerChoice::from_mock("3"),
        AnswerChoice::from_mock("4"),
    ]);
    let mut saw_proper_subset = false;
    for _ in 0..100 {
        if question.random_choices().unwrap().len() < 4 {
            saw_proper_subset = true;
        }
    }
    assert!(saw_proper_subset);
}

#[test]
fn get_combination_count_test() {
    assert_eq!(get_combination_count(1), 1);
    assert_eq!(get_combination_count(2), 3);
    assert_eq!(get_combination_count(3), 7);
    assert_eq!(get_combination_count(4), 15);
}

fn fresh_state() -> GlobalData {
    GlobalData {
        quiz_id: String::from("quiz"),
        cookie: String::from(""),
        csrf_token: String::from("token"),
        cookies: StrDict::new(),
        student_assessment_sys_guid: String::from(""),
        questions: Vec::new(),
    }
}

fn values_of(choices: &[AnswerChoice]) -> Vec<String> {
    choices.iter().map(|c| c.choice_value.clone()).collect()
}

#[test]
fn elimination_scenario_test() {
    // A single-answer question with catalog {A, B, C, D} and no prior
    // knowledge; three attempts are each proven all-wrong by the aggregate
    // signal, and elimination fires without the correct choice ever being
    // submitted.
    let mut state = fresh_state();
    state.insert_question(String::from("t1"));
    state
        .set_choices(
            String::from("t1"),
            vec![
                AnswerChoice::from_mock("A"),
                AnswerChoice::from_mock("B"),
                AnswerChoice::from_mock("C"),
                AnswerChoice::from_mock("D"),
            ],
        )
        .unwrap();

    state.questions[0].chosen_choices = vec![AnswerChoice::from_mock("B")];
    assert_eq!(state.get_min_correct(), 0);
    state.reconcile(0, 0);
    assert_eq!(values_of(&state.questions[0].error_choices), vec!["B"]);
    assert!(state.questions[0].correct_choices.is_empty());

    state.questions[0].chosen_choices = vec![AnswerChoice::from_mock("C")];
    state.reconcile(0, 0);
    assert_eq!(values_of(&state.questions[0].error_choices), vec!["B", "C"]);
    assert!(state.questions[0].correct_choices.is_empty());

    state.questions[0].chosen_choices = vec![AnswerChoice::from_mock("D")];
    state.reconcile(0, 0);
    assert_eq!(
        values_of(&state.questions[0].error_choices),
        vec!["B", "C", "D"]
    );
    assert_eq!(values_of(&state.questions[0].correct_choices), vec!["A"]);

    // The knowledge is stable: the selector now returns A, and another
    // wrong-branch reconciliation leaves it in place.
    state.select_choices(String::from("t1")).unwrap();
    assert_eq!(values_of(&state.questions[0].chosen_choices), vec!["A"]);
    state.reconcile(0, 1);
    assert_eq!(values_of(&state.questions[0].correct_choices), vec!["A"]);
}

#[test]
fn full_score_scenario_test() {
    // A full-score attempt with three questions, none previously known:
    // every question gets its submitted choices confirmed at once.
    let mut state = fresh_state();
    for (tid, pick) in [("t1", "A"), ("t2", "B"), ("t3", "C")] {
        state.insert_question(String::from(tid));
        let i = state.questions.len() - 1;
        state.questions[i].chosen_choices = vec![AnswerChoice::from_mock(pick)];
    }
    state.reconcile(100, 3);
    assert_eq!(values_of(&state.questions[0].correct_choices), vec!["A"]);
    assert_eq!(values_of(&state.questions[1].correct_choices), vec!["B"]);
    assert_eq!(values_of(&state.questions[2].correct_choices), vec!["C"]);
}

#[test]
fn ambiguous_outcome_test() {
    // One of two questions is already known; a correct-count strictly
    // between the known minimum and the total leaves all knowledge alone.
    let mut state = fresh_state();
    state.insert_question(String::from("t1"));
    state.insert_question(String::from("t2"));
    state.questions[0].correct_choices = vec![AnswerChoice::from_mock("A")];
    state.questions[0].chosen_choices = vec![AnswerChoice::from_mock("A")];
    state.questions[1].chosen_choices = vec![AnswerChoice::from_mock("X")];
    state.questions[1].error_choices = vec![AnswerChoice::from_mock("Y")];
    assert_eq!(state.get_min_correct(), 1);

    state.reconcile(50, 2);

    assert_eq!(values_of(&state.questions[0].correct_choices), vec!["A"]);
    assert!(state.questions[1].correct_choices.is_empty());
    assert_eq!(values_of(&state.questions[1].error_choices), vec!["Y"]);
    assert!(state.questions[1].multiple_error_choices.is_empty());
}

#[test]
fn known_answer_selected_verbatim_test() {
    // Once known, the answer is returned whatever order the catalog takes.
    let mut state = fresh_state();
    state.insert_question(String::from("t1"));
    state
        .set_choices(
            String::from("t1"),
            vec![
                AnswerChoice::from_mock("D"),
                AnswerChoice::from_mock("C"),
                AnswerChoice::from_mock("B"),
                AnswerChoice::from_mock("A"),
            ],
        )
        .unwrap();
    state.questions[0].correct_choices = vec![AnswerChoice::from_mock("B")];
    state.select_choices(String::from("t1")).unwrap();
    assert_eq!(values_of(&state.questions[0].chosen_choices), vec!["B"]);
    let sent = state.chosen_choices(String::from("t1")).unwrap();
    assert_eq!(values_of(&sent), vec!["B"]);
}

#[test]
fn multiple_answer_reconcile_test() {
    // A wrong multiple-answer attempt is recorded as a whole combination,
    // not as individually wrong choices.
    let mut state = fresh_state();
    state.insert_question(String::from("t1"));
    state
        .set_format(String::from("t1"), QuestionFormat::MultiChoiceMultipleAnswer)
        .unwrap();
    state.questions[0].chosen_choices =
        vec![AnswerChoice::from_mock("1"), AnswerChoice::from_mock("2")];
    state.reconcile(0, 0);
    assert!(state.questions[0].error_choices.is_empty());
    assert_eq!(state.questions[0].multiple_error_choices.len(), 1);
    assert_eq!(
        values_of(&state.questions[0].multiple_error_choices[0]),
        vec!["1", "2"]
    );
}

#[test]
fn question_not_found_test() {
    let mut state = fresh_state();
    state.insert_question(String::from("t1"));
    assert_eq!(
        state.set_useful_id(String::from("missing"), String::from("u1")),
        Err(wbl_robot::QuizError::QuestionNotFound)
    );
    assert_eq!(
        state.select_choices(String::from("missing")),
        Err(wbl_robot::QuizError::QuestionNotFound)
    );
    assert!(state.chosen_choices(String::from("missing")).is_err());
}

#[test]
fn exhausted_candidates_test() {
    // Every catalog choice is confirmed wrong: the selector refuses to
    // guess a known-wrong answer.
    let mut state = fresh_state();
    state.insert_question(String::from("t1"));
    state
        .set_choices(
            String::from("t1"),
            vec![AnswerChoice::from_mock("A"), AnswerChoice::from_mock("B")],
        )
        .unwrap();
    state.questions[0].error_choices =
        vec![AnswerChoice::from_mock("A"), AnswerChoice::from_mock("B")];
    assert_eq!(
        state.select_choices(String::from("t1")),
        Err(wbl_robot::QuizError::ExhaustedCandidates)
    );

    // A multiple-answer question with an empty catalog has no non-empty
    // subset to offer either.
    let mut other = fresh_state();
    other.insert_question(String::from("t2"));
    other
        .set_format(String::from("t2"), QuestionFormat::MultiChoiceMultipleAnswer)
        .unwrap();
    assert_eq!(
        other.select_choices(String::from("t2")),
        Err(wbl_robot::QuizError::ExhaustedCandidates)
    );
}

#[test]
fn attempt_bookkeeping_test() {
    let mut state = fresh_state();
    assert_eq!(state.question_count(), 0);
    state.insert_question(String::from("t1"));
    state.insert_question(String::from("t2"));
    state.insert_question(String::from("t3"));
    assert_eq!(state.question_count(), 3);
    assert_eq!(state.first_question(), String::from("t1"));
    assert_eq!(state.last_question(), String::from("t3"));
    assert_eq!(state.get_question_id(1), String::from("t2"));
    assert_eq!(state.get_question(1).temp_id, String::from("t2"));

    state
        .set_useful_id(String::from("t2"), String::from("u2"))
        .unwrap();
    assert_eq!(state.questions[1].useful_id, String::from("u2"));

    state.set_student_guid(String::from("guid"));
    assert_eq!(state.student_guid(), &String::from("guid"));

    state.clear_question();
    assert_eq!(state.question_count(), 0);
}

#[test]
fn set_choices_marks_selected_test() {
    let mut state = fresh_state();
    state.insert_question(String::from("t1"));
    state
        .set_choices(
            String::from("t1"),
            vec![AnswerChoice::from_mock("A"), AnswerChoice::from_mock("B")],
        )
        .unwrap();
    assert!(state.questions[0].choices.iter().all(|c| c.is_selected));
    assert_eq!(values_of(&state.questions[0].choices), vec!["A", "B"]);
}

#[test]
fn absorb_knowledge_test() {
    let mut state = fresh_state();
    state.insert_question(String::from("t1"));
    let mut record = blank_question(Vec::new());
    record.useful_id = String::from("u1");
    record.correct_choices = vec![AnswerChoice::from_mock("A")];
    record.error_choices = vec![AnswerChoice::from_mock("B")];
    state
        .absorb_knowledge(String::from("t1"), Some(&record))
        .unwrap();
    assert_eq!(values_of(&state.questions[0].correct_choices), vec!["A"]);
    assert_eq!(values_of(&state.questions[0].error_choices), vec!["B"]);

    // A question never seen before leaves the in-memory state as it is.
    let mut other = fresh_state();
    other.insert_question(String::from("t2"));
    other.absorb_knowledge(String::from("t2"), None).unwrap();
    assert!(other.questions[0].correct_choices.is_empty());
    assert!(other.questions[0].error_choices.is_empty());
}

#[test]
fn excluded_errors_counts_duplicates_test() {
    let mut q = blank_question(vec![
        AnswerChoice::from_mock("A"),
        AnswerChoice::from_mock("B"),
        AnswerChoice::from_mock("C"),
    ]);
    q.error_choices = vec![AnswerChoice::from_mock("B")];
    assert_eq!(values_of(&q.excluded_errors()), vec!["A", "C"]);
}
