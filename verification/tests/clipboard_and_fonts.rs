use assessment_report::clipboard::{buffer_shortcut, field_shortcut, Shortcut};
use assessment_report::clipboard::{respond, ClipboardAction, ClipboardRequest};
use assessment_report::fonts::{cjk_codepoints, face_for, latin_codepoints, FontFace};
use assessment_report::text::CharFilter;

#[test]
fn copy_cut_select_paste() {
    let r = respond(ClipboardRequest::Copy, "abc", CharFilter::NotControl);
    assert!(matches!(r.action, ClipboardAction::Noop));
    assert_eq!(r.copy.as_deref(), Some("abc"));
    let r = respond(ClipboardRequest::Cut, "abc", CharFilter::NotControl);
    assert!(matches!(r.action, ClipboardAction::Replace(ref s) if s.is_empty()));
    assert_eq!(r.copy.as_deref(), Some("abc"));
    let r = respond(ClipboardRequest::SelectAll, "abc", CharFilter::NotControl);
    assert!(matches!(r.action, ClipboardAction::SelectAll));
    assert!(r.copy.is_none());
    let r = respond(ClipboardRequest::Paste(Some("d\ne".to_string())), "abc", CharFilter::NotControl);
    assert!(matches!(r.action, ClipboardAction::Replace(ref s) if s == "abcde"));
    let r = respond(ClipboardRequest::Paste(Some("\n\t".to_string())), "abc", CharFilter::NotControl);
    assert!(matches!(r.action, ClipboardAction::Noop));
    let r = respond(ClipboardRequest::Paste(None), "abc", CharFilter::NotControl);
    assert!(matches!(r.action, ClipboardAction::Noop));
    let r = respond(ClipboardRequest::Nothing, "abc", CharFilter::NotControl);
    assert!(matches!(r.action, ClipboardAction::Noop));
    assert!(r.copy.is_none());
}

#[test]
fn faces_follow_the_script() {
    assert_eq!(face_for("Anna Berg"), FontFace::Latin);
    assert_eq!(face_for("山田 太郎"), FontFace::Cjk);
    assert_eq!(face_for("Kim 김"), FontFace::Cjk);
    assert_eq!(face_for("ひ"), FontFace::Cjk);
    assert_eq!(face_for(""), FontFace::Latin);
}

#[test]
fn code_point_lists() {
    let latin = latin_codepoints();
    assert_eq!(latin.chars().count(), 0x230 + 0x90 + 0x100 + 0x70);
    assert_eq!(latin.chars().next(), Some(' '));
    assert_eq!(latin.chars().last(), Some('\u{206F}'));
    let cjk = cjk_codepoints();
    assert_eq!(cjk.chars().count(), 0xC0 + 0x19C0 + 0x5200 + 0x2BB0 + 0x200);
    assert_eq!(cjk.chars().next(), Some('\u{3040}'));
}

#[test]
fn shortcut_precedence() {
    assert_eq!(buffer_shortcut(false, true, true, true, true), Shortcut::Nothing);
    assert_eq!(buffer_shortcut(true, true, true, true, true), Shortcut::Copy);
    assert_eq!(buffer_shortcut(true, false, true, true, true), Shortcut::Cut);
    assert_eq!(buffer_shortcut(true, false, false, true, true), Shortcut::SelectAll);
    assert_eq!(buffer_shortcut(true, false, false, false, true), Shortcut::Paste);
    assert_eq!(buffer_shortcut(true, false, false, false, false), Shortcut::Nothing);
    assert_eq!(field_shortcut(true, true, true, true, true), Shortcut::SelectAll);
    assert_eq!(field_shortcut(true, false, true, true, true), Shortcut::Copy);
    assert_eq!(field_shortcut(true, false, false, true, true), Shortcut::Cut);
    assert_eq!(field_shortcut(true, false, false, false, true), Shortcut::Paste);
    assert_eq!(field_shortcut(false, true, false, false, false), Shortcut::Nothing);
}
