use vstd::prelude::*;
use vstd::string::*;
use crate::dict::{StrDict, StrEntry};
use crate::global::GlobalData;

verus! {

/// The query string formed by the given entries, in order: `k1=v1&k2=v2`.
pub open spec fn query_string(entries: Seq<StrEntry>) -> Seq<char>
    decreases entries.len(),
{
    if entries.len() == 0 {
        Seq::empty()
    } else if entries.len() == 1 {
        entries[0].key@ + "="@ + entries[0].value@
    } else {
        query_string(entries.drop_last()) + "&"@ + entries.last().key@ + "="@
            + entries.last().value@
    }
}

/// Joins the dictionary's entries, in insertion order, as `k1=v1&k2=v2`.
pub fn url_queries(queries: &StrDict) -> (r: String)
    ensures
        r@ == query_string(queries.entries@),
{
    let mut out = String::new();
    let mut i: usize = 0;
    while i < queries.entries.len()
        invariant
            i <= queries.entries@.len(),
            out@ == query_string(queries.entries@.subrange(0, i as int)),
        decreases queries.entries@.len() - i,
    {
        proof {
            let pre = queries.entries@.subrange(0, i as int);
            let ext = queries.entries@.subrange(0, i as int + 1);
            assert(ext.drop_last() =~= pre);
            assert(ext.last() == queries.entries@[i as int]);
        }
        if i > 0 {
            out.append("&");
        }
        out.append(queries.entries[i].key.as_str());
        out.append("=");
        out.append(queries.entries[i].value.as_str());
        i += 1;
    }
    proof {
        assert(queries.entries@.subrange(0, queries.entries@.len() as int) =~= queries.entries@);
    }
    out
}

/// The address that opens an attempt: the quiz base, the quiz identifier,
/// the iteration locale, and the student component, module and iteration
/// queries drawn from the parsed cookies.
pub fn iteration_url(global_data: &GlobalData) -> (r: String)
    requires
        global_data.cookies.wf(),
        global_data.cookies.contents().contains_key("PSA_STUD_CPNT_ID"@),
        global_data.cookies.contents().contains_key("PSA_STUD_CPNT_MOD_ID"@),
    ensures
        r@ == "https://eygsl.plateau.com/learning/user/api/v1/current-user/quiz"@ + "/"@
            + global_data.quiz_id@ + "/iteration/English"@ + "?"@ + "studentComponentID"@ + "="@
            + global_data.cookies.contents()["PSA_STUD_CPNT_ID"@] + "&"@ + "moduleID"@ + "="@
            + global_data.cookies.contents()["PSA_STUD_CPNT_MOD_ID"@] + "&"@
            + "generateIteration"@ + "="@ + "true"@,
{
    let base_url = "https://eygsl.plateau.com/learning/user/api/v1/current-user/quiz";
    let component = match global_data.cookie_value("PSA_STUD_CPNT_ID") {
        Some(v) => v.clone(),
        None => vstd::pervasive::unreached(),
    };
    let module = match global_data.cookie_value("PSA_STUD_CPNT_MOD_ID") {
        Some(v) => v.clone(),
        None => vstd::pervasive::unreached(),
    };
    let mut queries = StrDict::new();
    proof {
        reveal_strlit("studentComponentID");
        reveal_strlit("moduleID");
        reveal_strlit("generateIteration");
        assert("studentComponentID"@.len() == 18);
        assert("moduleID"@.len() == 8);
        assert("generateIteration"@.len() == 17);
        assert("studentComponentID"@ != "moduleID"@);
        assert("generateIteration"@ != "studentComponentID"@);
        assert("generateIteration"@ != "moduleID"@);
    }
    queries.insert("studentComponentID".to_owned(), component);
    queries.insert("moduleID".to_owned(), module);
    queries.insert("generateIteration".to_owned(), "true".to_owned());
    let query_part = url_queries(&queries);
    proof {
        reveal_with_fuel(query_string, 4);
        assert(queries.entries@.drop_last().drop_last().drop_last() =~= Seq::<StrEntry>::empty());
    }
    let mut url = base_url.to_owned();
    url.append("/");
    url.append(global_data.quiz_id.as_str());
    url.append("/iteration/English");
    url.append("?");
    url.append(query_part.as_str());
    url
}

/// The address that opens or submits one question of the running attempt.
pub fn start_url(global_data: &GlobalData, question_guid: String) -> (r: String)
    ensures
        r@ == "https://eygsl.plateau.com/learning/user/api/v1/current-user/quiz"@ + "/"@
            + global_data.quiz_id@ + "/iteration/"@ + global_data.student_assessment_sys_guid@
            + "/question/"@ + question_guid@,
{
    let base_url = "https://eygsl.plateau.com/learning/user/api/v1/current-user/quiz";
    let mut url = base_url.to_owned();
    url.append("/");
    url.append(global_data.quiz_id.as_str());
    url.append("/iteration/");
    url.append(global_data.student_assessment_sys_guid.as_str());
    url.append("/question/");
    url.append(question_guid.as_str());
    url
}

} // verus!
