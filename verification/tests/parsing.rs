use wbl_robot::global::GlobalData;
use wbl_robot::url::{iteration_url, start_url, url_queries};
use wbl_robot::dict::StrDict;
use wbl_robot::{cookies, env_from_lines, env_get, split_by};

#[test]
fn split_by_test() {
    assert_eq!(
        split_by(String::from("key=value"), '='),
        (String::from("key"), String::from("value"))
    );
    assert_eq!(
        split_by(String::from("a=b=c"), '='),
        (String::from("a"), String::from("b=c"))
    );
    assert_eq!(
        split_by(String::from("flag"), '='),
        (String::from("flag"), String::from(""))
    );
    assert_eq!(
        split_by(String::from("=v"), '='),
        (String::from(""), String::from("v"))
    );
    assert_eq!(
        split_by(String::from(""), '='),
        (String::from(""), String::from(""))
    );
}

#[test]
fn cookies_test() {
    let header = String::from("PSA_STUD_CPNT_ID=123; PSA_STUD_CPNT_MOD_ID=456;  extra=x=y");
    let jar = cookies(&header);
    assert_eq!(
        jar.get(&String::from("PSA_STUD_CPNT_ID")),
        Some(&String::from("123"))
    );
    assert_eq!(
        jar.get(&String::from("PSA_STUD_CPNT_MOD_ID")),
        Some(&String::from("456"))
    );
    assert_eq!(jar.get(&String::from("extra")), Some(&String::from("x=y")));
    assert_eq!(jar.get(&String::from("missing")), None);
}

#[test]
fn cookies_unicode_whitespace_test() {
    // Trimming strips every character with the Unicode White_Space
    // property, exactly as the platform's cookie header may pad with.
    let header = String::from("\u{00A0}k1=v1\u{3000};\u{2003}\tk2=v2\u{2028} ");
    let jar = cookies(&header);
    assert_eq!(jar.get(&String::from("k1")), Some(&String::from("v1")));
    assert_eq!(jar.get(&String::from("k2")), Some(&String::from("v2")));
}

#[test]
fn cookies_duplicate_key_test() {
    let header = String::from("k=first; k=second");
    let jar = cookies(&header);
    assert_eq!(jar.get(&String::from("k")), Some(&String::from("second")));
    assert_eq!(jar.len(), 1);
}

#[test]
fn env_from_lines_test() {
    let lines = vec![
        String::from("# a comment"),
        String::from(""),
        String::from("QUIZ_ID=qz-7"),
        String::from("COOKIE=a=b"),
    ];
    let vars = env_from_lines(&lines);
    assert_eq!(env_get(&vars, "QUIZ_ID"), Some(&String::from("qz-7")));
    assert_eq!(env_get(&vars, "COOKIE"), Some(&String::from("a=b")));
    assert_eq!(env_get(&vars, "# a comment"), None);
    assert_eq!(env_get(&vars, "MISSING"), None);
}

#[test]
fn url_queries_test() {
    let mut queries = StrDict::new();
    queries.insert(String::from("a"), String::from("1"));
    queries.insert(String::from("b"), String::from("2"));
    assert_eq!(url_queries(&queries), String::from("a=1&b=2"));
}

#[test]
fn iteration_url_test() {
    let state = GlobalData::new(
        String::from("QZ1"),
        String::from("PSA_STUD_CPNT_ID=123; PSA_STUD_CPNT_MOD_ID=456"),
        String::from("token"),
    );
    assert_eq!(
        iteration_url(&state),
        String::from(
            "https://eygsl.plateau.com/learning/user/api/v1/current-user/quiz/QZ1/iteration/English?studentComponentID=123&moduleID=456&generateIteration=true"
        )
    );
}

#[test]
fn start_url_test() {
    let mut state = GlobalData::new(String::from("QZ1"), String::from(""), String::from("t"));
    state.set_student_guid(String::from("GUID9"));
    assert_eq!(
        start_url(&state, String::from("Q42")),
        String::from(
            "https://eygsl.plateau.com/learning/user/api/v1/current-user/quiz/QZ1/iteration/GUID9/question/Q42"
        )
    );
}

#[test]
fn cookie_value_test() {
    let state = GlobalData::new(
        String::from("q"),
        String::from("one=1; two=2"),
        String::from("t"),
    );
    assert_eq!(state.cookie_value("one"), Some(&String::from("1")));
    assert_eq!(state.cookie_value("two"), Some(&String::from("2")));
    assert_eq!(state.cookie_value("three"), None);
    assert_eq!(state.quiz_id(), &String::from("q"));
    assert_eq!(state.csrf_token(), &String::from("t"));
    assert_eq!(state.cookie(), &String::from("one=1; two=2"));
}
