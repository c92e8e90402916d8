use vstd::prelude::*;
use crate::response::AnswerChoice;

verus! {

/// The body of a question submission: scoring on, the chosen answers, and
/// the identifier of the question to advance to.
pub struct SaveBody {
    pub score: bool,
    pub student_answers: Vec<AnswerChoice>,
    pub next: String,
}

impl SaveBody {
    pub fn from(answers: Vec<AnswerChoice>, next: String) -> (r: SaveBody)
        ensures
            r.score == true,
            r.student_answers == answers,
            r.next == next,
    {
        SaveBody { score: true, student_answers: answers, next }
    }
}

} // verus!
