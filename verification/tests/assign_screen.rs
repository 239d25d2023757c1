use assessment_report::assign::{remaining_hint, window_height, AssignForm, FormEvent, Outcome, Screen};

fn form() -> AssignForm {
    AssignForm::new(vec!["Bo".to_string(), "Cy".to_string()])
}

fn type_digits(f: &mut AssignForm, s: &str) {
    for c in s.chars() {
        assert!(f.handle(FormEvent::Char(c)).is_none());
    }
}

#[test]
fn confirming_gives_the_amounts() {
    let mut f = form();
    assert_eq!(f.remaining(), 50);
    type_digits(&mut f, "3x0");
    assert_eq!(f.field(0), "30");
    assert_eq!(f.remaining(), 20);
    f.handle(FormEvent::Enter);
    assert_eq!(f.screen(), Screen::Assign);
    f.handle(FormEvent::Tab);
    assert_eq!(f.active(), 1);
    type_digits(&mut f, "25");
    assert_eq!(f.remaining(), -5);
    f.handle(FormEvent::Backspace);
    f.handle(FormEvent::Backspace);
    type_digits(&mut f, "20");
    f.handle(FormEvent::Yes);
    assert_eq!(f.screen(), Screen::Assign);
    f.handle(FormEvent::Enter);
    assert_eq!(f.screen(), Screen::Confirm);
    f.handle(FormEvent::No);
    assert_eq!(f.screen(), Screen::Assign);
    f.handle(FormEvent::Enter);
    match f.handle(FormEvent::Yes) {
        Some(Outcome::Done(a)) => {
            assert_eq!(a.len(), 2);
            assert_eq!((a[0].name.as_str(), a[0].amount), ("Bo", 30));
            assert_eq!((a[1].name.as_str(), a[1].amount), ("Cy", 20));
        },
        _ => panic!("expected the amounts"),
    }
}

#[test]
fn tab_wraps_and_clicks_select() {
    let mut f = form();
    f.handle(FormEvent::Tab);
    f.handle(FormEvent::Tab);
    assert_eq!(f.active(), 0);
    f.handle(FormEvent::FieldClicked(1));
    assert_eq!(f.active(), 1);
}

#[test]
fn edit_button_leaves_the_screen() {
    let mut f = form();
    assert!(matches!(f.handle(FormEvent::EditClicked), Some(Outcome::EditConfig)));
}

#[test]
fn oversized_fields_count_as_zero() {
    let mut f = form();
    type_digits(&mut f, "99999999999");
    assert_eq!(f.remaining(), 50);
    let a = f.assignments();
    assert_eq!(a[0].amount, 0);
}

#[test]
fn hints_and_heights() {
    assert_eq!(remaining_hint(0), "Press Enter to confirm");
    assert_eq!(remaining_hint(-1), "Over budget — reduce some values");
    assert_eq!(remaining_hint(12), "Click or Tab to select a field");
    assert_eq!(window_height(3), 24 * 3 + 48 * 3 + 24 * 2 + 32 + 24);
}

#[test]
fn clicks_outside_the_fields_are_ignored() {
    let mut f = form();
    f.handle(FormEvent::FieldClicked(1));
    assert!(f.handle(FormEvent::FieldClicked(7)).is_none());
    assert_eq!(f.active(), 1);
}
