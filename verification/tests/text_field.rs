use assessment_report::clipboard::Shortcut;
use assessment_report::text::CharFilter;
use assessment_report::textfield::TextField;

#[test]
fn typing_moving_and_deleting() {
    let mut f = TextField::new(CharFilter::NotControl);
    assert!(f.is_empty());
    f.insert_str("héllo");
    assert_eq!(f.text(), "héllo");
    assert_eq!(f.cursor(), 5);
    f.move_left(false);
    f.move_left(false);
    f.insert_char('X');
    assert_eq!(f.text(), "hélXlo");
    f.backspace();
    assert_eq!(f.text(), "héllo");
    f.move_home(false);
    f.delete_forward();
    assert_eq!(f.text(), "éllo");
    f.backspace();
    assert_eq!(f.text(), "éllo");
    f.move_end(false);
    f.delete_forward();
    assert_eq!(f.text(), "éllo");
    f.insert_char('\n');
    assert_eq!(f.text(), "éllo");
}

#[test]
fn selections_are_replaced_and_collapse() {
    let mut f = TextField::with_text("abcdef".to_string(), CharFilter::NotControl);
    assert_eq!(f.cursor(), 6);
    f.move_left(true);
    f.move_left(true);
    assert_eq!(f.selection(), Some((4, 6)));
    assert_eq!(f.selected_text(), "ef");
    f.insert_char('Z');
    assert_eq!(f.text(), "abcdZ");
    assert!(!f.has_selection());
    f.move_home(true);
    assert_eq!(f.selection(), Some((0, 5)));
    f.move_right(false);
    assert_eq!(f.cursor(), 5);
    assert!(!f.has_selection());
    f.move_home(false);
    f.move_right(true);
    f.move_right(true);
    f.move_left(false);
    assert_eq!(f.cursor(), 0);
    f.move_end(true);
    f.backspace();
    assert_eq!(f.text(), "");
}

#[test]
fn clipboard_operations() {
    let mut f = TextField::with_text("hello world".to_string(), CharFilter::NotControl);
    f.select_all();
    assert_eq!(f.selected_text(), "hello world");
    let cut = f.cut();
    assert_eq!(cut, "hello world");
    assert!(f.is_empty());
    f.insert_str("a\tb");
    assert_eq!(f.text(), "ab");
    f.input_char('\u{7}');
    f.input_char('c');
    assert_eq!(f.text(), "abc");
    assert_eq!(f.slice(1, 3), "bc");
}

#[test]
fn digit_fields_refuse_letters() {
    let mut f = TextField::new(CharFilter::AsciiDigit);
    f.insert_str("1a2b3");
    assert_eq!(f.text(), "123");
    f.set_text("99x".to_string());
    assert_eq!(f.text(), "99x");
    assert_eq!(f.cursor(), 3);
    f.clear();
    assert!(f.is_empty());
    assert_eq!(f.cursor(), 0);
}

#[test]
fn an_empty_selection_deletes_like_no_selection() {
    let mut f = TextField::with_text("ab".to_string(), CharFilter::NotControl);
    f.move_left(true);
    f.move_right(true);
    assert_eq!(f.selection(), Some((2, 2)));
    f.backspace();
    assert_eq!(f.text(), "a");
    assert_eq!(f.cursor(), 1);
    assert!(!f.has_selection());

    let mut g = TextField::with_text("ab".to_string(), CharFilter::NotControl);
    g.move_home(false);
    g.move_right(true);
    g.move_left(true);
    assert_eq!(g.selection(), Some((0, 0)));
    g.delete_forward();
    assert_eq!(g.text(), "b");
    assert_eq!(g.cursor(), 0);
    assert!(!g.has_selection());
}

#[test]
fn shortcuts_on_a_field() {
    let mut f = TextField::with_text("hello".to_string(), CharFilter::NotControl);
    assert_eq!(f.apply_shortcut(Shortcut::Nothing, None), None);
    assert_eq!(f.apply_shortcut(Shortcut::Copy, None), Some(String::new()));
    assert_eq!(f.apply_shortcut(Shortcut::SelectAll, None), None);
    assert_eq!(f.apply_shortcut(Shortcut::Copy, None), Some("hello".to_string()));
    assert_eq!(f.text(), "hello");
    assert_eq!(f.apply_shortcut(Shortcut::Cut, None), Some("hello".to_string()));
    assert_eq!(f.text(), "");
    assert_eq!(f.apply_shortcut(Shortcut::Paste, Some("x\ty".to_string())), None);
    assert_eq!(f.text(), "xy");
    assert_eq!(f.apply_shortcut(Shortcut::Paste, None), None);
    assert_eq!(f.text(), "xy");
}
