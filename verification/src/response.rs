use vstd::prelude::*;
use crate::QuizError;

verus! {

/// Which branch of the selector and the reconciler applies to a question.
#[derive(Clone, Copy, Debug, PartialEq, Eq, Structural)]
pub enum QuestionFormat {
    MultiChoiceSingleAnswer,
    MultiChoiceMultipleAnswer,
}

/// One selectable option of a question. Equality between choices is decided
/// by `choice_value` alone; the other fields are presentation metadata.
pub struct AnswerChoice {
    pub answer_sys_guid: String,
    pub choice_value: String,
    pub is_selected: bool,
}

/// The mathematical content of an `AnswerChoice`.
#[verifier::ext_equal]
pub struct ChoiceView {
    pub answer_sys_guid: Seq<char>,
    pub choice_value: Seq<char>,
    pub is_selected: bool,
}

impl View for AnswerChoice {
    type V = ChoiceView;

    open spec fn view(&self) -> ChoiceView {
        ChoiceView {
            answer_sys_guid: self.answer_sys_guid@,
            choice_value: self.choice_value@,
            is_selected: self.is_selected,
        }
    }
}

impl Clone for AnswerChoice {
    fn clone(&self) -> (r: Self)
        ensures
            r@ == self@,
    {
        AnswerChoice {
            answer_sys_guid: self.answer_sys_guid.clone(),
            choice_value: self.choice_value.clone(),
            is_selected: self.is_selected,
        }
    }
}

impl AnswerChoice {
    /// A bare choice carrying only a choice value, as offered to tests.
    pub fn from_mock(v: &str) -> (r: AnswerChoice)
        ensures
            r@ == (ChoiceView {
                answer_sys_guid: "default mock"@,
                choice_value: v@,
                is_selected: false,
            }),
    {
        AnswerChoice {
            answer_sys_guid: "default mock".to_owned(),
            choice_value: v.to_owned(),
            is_selected: false,
        }
    }
}

/// The platform's response envelope around a payload of type `T`.
pub struct CustomResponse<T> {
    pub rest_operation_status_vox: RestOperationStatusVOX<T>,
}

pub struct RestOperationStatusVOX<T> {
    pub operation: Option<String>,
    pub status: String,
    pub data: Data<T>,
    pub errors: Option<String>,
    pub warnings: Option<String>,
}

pub struct Data<T> {
    pub rest_return_data: T,
}

/// Payload of the iteration endpoint.
pub struct IterationData {
    pub student_assessment_iteration: Option<StudentAssessmentIteration>,
}

pub struct StudentAssessmentIteration {
    pub question_count: usize,
    pub questions: Vec<Question>,
    pub student_assessment_sys_guid: String,
    pub quiz_id: String,
    pub quiz_sys_guid: String,
}

pub struct Question {
    pub student_assessment_question_sys_guid: String,
}

/// Payload of the start endpoint: the first question's catalog.
pub struct StartData {
    pub question_id: String,
    pub answer_choices: Vec<AnswerChoice>,
    pub format: QuestionFormat,
}

/// Payload of the final submission: the attempt's outcome signal.
pub struct SubmitData {
    pub score: usize,
    pub questions_correct: usize,
}

/// Unwraps the platform's response envelope: the payload is handed out
/// exactly when the envelope's status reads `SUCCESS`; any other status is a
/// collaborator failure.
pub fn unwrap_response<T>(response: CustomResponse<T>) -> (r: Result<T, QuizError>)
    ensures
        response.rest_operation_status_vox.status@ == "SUCCESS"@ ==> (r matches Ok(d)
            && d == response.rest_operation_status_vox.data.rest_return_data),
        response.rest_operation_status_vox.status@ != "SUCCESS"@ ==> (r matches Err(e)
            && e == QuizError::CollaboratorFailure),
{
    let vox = response.rest_operation_status_vox;
    let success = "SUCCESS".to_owned();
    if vox.status == success {
        Ok(vox.data.rest_return_data)
    } else {
        Err(QuizError::CollaboratorFailure)
    }
}

} // verus!
