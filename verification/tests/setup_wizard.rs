use assessment_report::clipboard::ClipboardAction;
use assessment_report::config::{validate, Config, General, Members};
use assessment_report::setup::{member_label, step_labels, SetupEvent, SetupState, Step};

fn type_text(s: &mut SetupState, text: &str) {
    for c in text.chars() {
        s.handle(SetupEvent::Char(c));
    }
}

fn enter(s: &mut SetupState, text: &str) {
    type_text(s, text);
    s.handle(SetupEvent::Enter);
}

#[test]
fn a_full_run_through_the_wizard() {
    let mut s = SetupState::new();
    enter(&mut s, "  Team 3 ");
    assert_eq!(s.step(), Step::MyName);
    assert_eq!(s.group_name(), "Team 3");
    enter(&mut s, "Anna Berg");
    assert_eq!(s.step(), Step::MemberCount);
    assert_eq!(*s.members(), vec!["Anna Berg".to_string()]);
    enter(&mut s, "3");
    assert_eq!(s.step(), Step::MemberName(1));
    assert_eq!(s.member_count(), 3);
    enter(&mut s, " Bo Ek ");
    assert_eq!(s.step(), Step::MemberName(2));
    enter(&mut s, "Cy");
    assert_eq!(s.step(), Step::Confirm);
    assert_eq!(*s.error(), None);
    let c = s.to_config();
    assert_eq!(c.members.students, vec!["Anna Berg".to_string(), "Bo Ek".to_string(), "Cy".to_string()]);
    assert!(validate(&c).is_ok());
    assert_eq!(s.confirm_win_h(), 24 + 26 * 7 + 48);
}

#[test]
fn empty_fields_are_refused() {
    let mut s = SetupState::new();
    enter(&mut s, "   ");
    assert_eq!(s.step(), Step::GroupName);
    assert_eq!(s.error().as_deref(), Some("Group name cannot be empty."));
    enter(&mut s, "G");
    enter(&mut s, "");
    assert_eq!(s.error().as_deref(), Some("Your name cannot be empty."));
    enter(&mut s, "Me");
    enter(&mut s, "2");
    enter(&mut s, " ");
    assert_eq!(s.step(), Step::MemberName(1));
    assert_eq!(s.error().as_deref(), Some("Name cannot be empty."));
}

#[test]
fn team_size_must_be_a_number_from_one_to_seven() {
    let mut s = SetupState::new();
    enter(&mut s, "G");
    enter(&mut s, "Me");
    enter(&mut s, "eight");
    assert_eq!(s.error().as_deref(), Some("Please enter a number."));
    s.handle(SetupEvent::Clipboard(ClipboardAction::Replace("8".to_string())));
    s.handle(SetupEvent::Enter);
    assert_eq!(s.error().as_deref(), Some("Enter a number between 1 and 7."));
    s.handle(SetupEvent::Clipboard(ClipboardAction::Replace("0".to_string())));
    s.handle(SetupEvent::Enter);
    assert_eq!(s.error().as_deref(), Some("Enter a number between 1 and 7."));
    s.handle(SetupEvent::Clipboard(ClipboardAction::Replace("1".to_string())));
    s.handle(SetupEvent::Enter);
    assert_eq!(s.step(), Step::Confirm);
    assert_eq!(*s.error(), None);
}

#[test]
fn duplicates_are_refused_with_a_reason() {
    let mut s = SetupState::new();
    enter(&mut s, "G");
    enter(&mut s, "Anna");
    enter(&mut s, "3");
    enter(&mut s, "ANNA");
    assert_eq!(s.error().as_deref(), Some("Your name has already been added."));
    s.handle(SetupEvent::Clipboard(ClipboardAction::Replace("Bo".to_string())));
    s.handle(SetupEvent::Enter);
    enter(&mut s, " bo");
    assert_eq!(s.error().as_deref(), Some("\"bo\" has already been added."));
    assert_eq!(s.step(), Step::MemberName(2));
}

#[test]
fn prefill_starts_from_the_current_config() {
    let c = Config {
        general: General { group_name: "G".to_string(), my_name: "Me".to_string() },
        members: Members { students: vec!["Me".to_string(), "You".to_string()] },
    };
    let mut s = SetupState::from_config(&c);
    assert_eq!(s.step(), Step::GroupName);
    assert_eq!(s.input(), "G");
    s.handle(SetupEvent::Enter);
    assert_eq!(s.step(), Step::MyName);
    assert_eq!(s.input(), "Me");
}

#[test]
fn editing_the_input() {
    let mut s = SetupState::new();
    type_text(&mut s, "ab\tc");
    assert_eq!(s.input(), "abc");
    s.handle(SetupEvent::Backspace);
    assert_eq!(s.input(), "ab");
    s.handle(SetupEvent::Clipboard(ClipboardAction::SelectAll));
    assert!(s.selected_all());
    type_text(&mut s, "x");
    assert_eq!(s.input(), "x");
    assert!(!s.selected_all());
    s.handle(SetupEvent::Clipboard(ClipboardAction::SelectAll));
    s.handle(SetupEvent::Backspace);
    assert_eq!(s.input(), "");
    s.handle(SetupEvent::Backspace);
    assert_eq!(s.input(), "");
    s.handle(SetupEvent::Clipboard(ClipboardAction::Noop));
    assert_eq!(s.input(), "");
}

#[test]
fn events_are_ignored_at_the_confirmation() {
    let mut s = SetupState::new();
    enter(&mut s, "G");
    enter(&mut s, "Me");
    enter(&mut s, "1");
    assert_eq!(s.step(), Step::Confirm);
    type_text(&mut s, "zz");
    s.handle(SetupEvent::Enter);
    assert_eq!(s.input(), "");
    assert_eq!(s.step(), Step::Confirm);
}

#[test]
fn labels_of_each_step() {
    assert_eq!(step_labels(Step::GroupName), ("Setup — Group name", "Enter your group's name"));
    assert_eq!(step_labels(Step::MemberName(4)), ("Setup — Member name", "Enter this member's full name"));
    assert_eq!(step_labels(Step::Confirm), ("", ""));
}

#[test]
fn member_labels_mark_the_user() {
    assert_eq!(member_label(0, "Anna", "anna"), "  1. Anna (you)");
    assert_eq!(member_label(2, "Bo", "anna"), "  3. Bo");
}

#[test]
fn confirmation_keys_save_or_start_over() {
    let mut s = SetupState::new();
    enter(&mut s, " Team ");
    enter(&mut s, "Me");
    enter(&mut s, "1");
    assert_eq!(s.step(), Step::Confirm);
    assert!(s.confirm_keys(false, false, None).is_none());
    assert_eq!(s.step(), Step::Confirm);
    let c = s.confirm_keys(true, true, None).expect("yes saves");
    assert_eq!(c.general.group_name, "Team");
    assert_eq!(c.general.my_name, "Me");
    assert_eq!(c.members.students, vec!["Me".to_string()]);
    assert_eq!(s.step(), Step::Confirm);
    let prefill = s.to_config();
    assert!(s.confirm_keys(false, true, Some(&prefill)).is_none());
    assert_eq!(s.step(), Step::GroupName);
    assert_eq!(s.input(), "Team");
    assert!(s.confirm_keys(true, false, None).is_none());
    let mut t = SetupState::start(None);
    assert_eq!(t.step(), Step::GroupName);
    assert_eq!(t.input(), "");
    enter(&mut t, "G");
    enter(&mut t, "Me");
    enter(&mut t, "1");
    assert!(t.confirm_keys(false, true, None).is_none());
    assert_eq!(t.group_name(), "");
}
