use wbl_robot::global::MemoryStoreQuestion;
use wbl_robot::response::{AnswerChoice, QuestionFormat};
use wbl_robot::store::KnowledgeStore;
use wbl_robot::response::{CustomResponse, Data, RestOperationStatusVOX};
use wbl_robot::QuizError;

fn record(useful_id: &str, correct: &str) -> MemoryStoreQuestion {
    MemoryStoreQuestion {
        useful_id: String::from(useful_id),
        temp_id: String::from(""),
        format: QuestionFormat::MultiChoiceSingleAnswer,
        choices: Vec::new(),
        correct_choices: vec![AnswerChoice::from_mock(correct)],
        error_choices: Vec::new(),
        multiple_error_choices: Vec::new(),
        chosen_choices: Vec::new(),
    }
}

#[test]
fn idempotent_persistence_test() {
    // Saving the same knowledge for one identifier twice leaves exactly one
    // stored record for it, holding the latest value.
    let mut store = KnowledgeStore::new();
    store.save(record("u1", "A"));
    store.save(record("u1", "A"));
    assert_eq!(store.record_count(), 1);
    let found = store.find_one(&String::from("u1")).unwrap();
    assert_eq!(found.correct_choices[0].choice_value, String::from("A"));
}

#[test]
fn upsert_takes_latest_test() {
    let mut store = KnowledgeStore::new();
    store.save(record("u1", "A"));
    store.save(record("u2", "B"));
    assert_eq!(store.record_count(), 2);
    store.save(record("u1", "C"));
    assert_eq!(store.record_count(), 2);
    let found = store.find_one(&String::from("u1")).unwrap();
    assert_eq!(found.correct_choices[0].choice_value, String::from("C"));
    assert!(store.find_one(&String::from("u3")).is_none());
}

fn envelope(status: &str, payload: u32) -> CustomResponse<u32> {
    CustomResponse {
        rest_operation_status_vox: RestOperationStatusVOX {
            operation: None,
            status: String::from(status),
            data: Data { rest_return_data: payload },
            errors: None,
            warnings: None,
        },
    }
}

#[test]
fn unwrap_response_test() {
    assert_eq!(wbl_robot::response::unwrap_response(envelope("SUCCESS", 7)), Ok(7));
    assert_eq!(
        wbl_robot::response::unwrap_response(envelope("ERROR", 7)),
        Err(QuizError::CollaboratorFailure)
    );
}

#[test]
fn save_body_test() {
    let answers = vec![AnswerChoice::from_mock("A"), AnswerChoice::from_mock("B")];
    let body = wbl_robot::request::SaveBody::from(answers, String::from("next-q"));
    assert!(body.score);
    assert_eq!(body.student_answers.len(), 2);
    assert_eq!(body.student_answers[1].choice_value, String::from("B"));
    assert_eq!(body.next, String::from("next-q"));
}
