use assessment_report::veuros::RoundEnd;
use assessment_report::config::{Config, General, Members};
use assessment_report::veuros::{is_yes, peers, AmountCheck, Round, TOTAL};

fn config(me: &str, students: &[&str]) -> Config {
    Config {
        general: General { group_name: "G".to_string(), my_name: me.to_string() },
        members: Members { students: students.iter().map(|s| s.to_string()).collect() },
    }
}

#[test]
fn peers_are_the_other_students_trimmed() {
    let c = config(" anna berg ", &[" Anna Berg", "Bo Ek  ", "Cy"]);
    assert_eq!(peers(&c), vec!["Bo Ek".to_string(), "Cy".to_string()]);
    let c = config("Solo", &["Solo"]);
    assert!(peers(&c).is_empty());
}

#[test]
fn a_round_gives_out_exactly_fifty() {
    let mut r = Round::new(vec!["Bo".to_string(), "Cy".to_string()]);
    assert_eq!(r.left(), TOTAL);
    assert_eq!(r.next_peer(), Some("Bo".to_string()));
    assert_eq!(r.offer("abc"), AmountCheck::NotANumber);
    assert_eq!(r.offer("51"), AmountCheck::TooMuch);
    assert_eq!(r.offer("-3"), AmountCheck::NotANumber);
    assert_eq!(r.offer(" 30\n"), AmountCheck::Accepted(30));
    assert_eq!(r.left(), 20);
    assert_eq!(r.next_peer(), Some("Cy".to_string()));
    assert_eq!(r.offer("21"), AmountCheck::TooMuch);
    assert_eq!(r.offer("20"), AmountCheck::Accepted(20));
    assert_eq!(r.next_peer(), None);
    assert_eq!(r.left(), 0);
    let a = r.into_assignments();
    assert_eq!(a.len(), 2);
    assert_eq!((a[0].name.as_str(), a[0].amount), ("Bo", 30));
    assert_eq!((a[1].name.as_str(), a[1].amount), ("Cy", 20));
    assert_eq!(a.iter().map(|x| x.amount).sum::<u32>(), TOTAL);
}

#[test]
fn a_short_round_leaves_the_rest() {
    let mut r = Round::new(vec!["Bo".to_string()]);
    assert_eq!(r.offer("+10"), AmountCheck::Accepted(10));
    assert_eq!(r.next_peer(), None);
    assert_eq!(r.left(), 40);
}

#[test]
fn only_y_confirms() {
    assert!(is_yes("y\n"));
    assert!(is_yes("  Y "));
    assert!(!is_yes("yes"));
    assert!(!is_yes(""));
    assert!(!is_yes("n"));
}

#[test]
fn ending_and_accepting_a_round() {
    let mut r = Round::new(vec!["Bo".to_string()]);
    r.offer("45");
    assert_eq!(r.end(), RoundEnd::Short(5));
    let mut r = Round::new(vec!["Bo".to_string()]);
    r.offer("50");
    assert_eq!(r.end(), RoundEnd::Full);
    let mut r2 = Round::new(vec!["Bo".to_string()]);
    r2.offer("50");
    assert!(r.accept("no").is_none());
    let a = r2.accept(" Y\n").expect("yes accepts");
    assert_eq!(a.len(), 1);
    assert_eq!((a[0].name.as_str(), a[0].amount), ("Bo", 50));
}
