use assessment_report::report::{build_content, file_name, file_name_now};
use assessment_report::veuros::Assignment;

fn a(name: &str, amount: u32) -> Assignment {
    Assignment { name: name.to_string(), amount }
}

#[test]
fn one_line_per_student_with_me_marked() {
    let students = vec![" Anna Berg ".to_string(), "Bo Ek".to_string(), "Cy".to_string()];
    let assignments = vec![a("Bo Ek", 35), a("Cy", 15)];
    assert_eq!(build_content("anna berg", &students, &assignments), "ME, -\nBo Ek, 35\nCy, 15\n");
}

#[test]
fn unassigned_students_get_an_empty_amount() {
    let students = vec!["Me".to_string(), "Other".to_string()];
    assert_eq!(build_content("Me", &students, &vec![]), "ME, -\nOther, \n");
}

#[test]
fn first_matching_assignment_wins() {
    let students = vec!["Me".to_string(), "bo".to_string()];
    let assignments = vec![a("BO", 0), a("bo", 50)];
    assert_eq!(build_content("Me", &students, &assignments), "ME, -\nbo, 0\n");
}

#[test]
fn no_students_gives_a_single_newline() {
    assert_eq!(build_content("Me", &vec![], &vec![]), "\n");
}

#[test]
fn file_name_follows_the_documented_pattern() {
    assert_eq!(file_name(7, " Team Red ", "Anna Maria Berg"), "1DV508WEEK7Team_RedByAnnaMariaBerg.txt");
    assert_eq!(file_name(53, "G", "X"), "1DV508WEEK53GByX.txt");
}

#[test]
fn file_name_now_uses_a_week_between_1_and_53() {
    let name = file_name_now("G", "X");
    let week: u32 = name
        .strip_prefix("1DV508WEEK")
        .and_then(|s| s.strip_suffix("GByX.txt"))
        .unwrap()
        .parse()
        .unwrap();
    assert!((1..=53).contains(&week));
}
