//! What the keys of the keyboard stand for.

use tsuro::annot::AnnotKind;
use tsuro::keyboard::{keyboard_message, Key, Modifiers, Named, Shortcut};
use tsuro::messages::Message;
use tsuro::state::{NavCmd, OpenSource, OutlineKey};

fn none() -> Modifiers {
    Modifiers { shift: false, control: false, alt: false, logo: false }
}

fn shift() -> Modifiers {
    Modifiers { shift: true, ..none() }
}

fn control() -> Modifiers {
    Modifiers { control: true, ..none() }
}

fn alt() -> Modifiers {
    Modifiers { alt: true, ..none() }
}

fn logo() -> Modifiers {
    Modifiers { logo: true, ..none() }
}

fn named(name: Named, m: Modifiers, captured: bool) -> Option<Shortcut> {
    keyboard_message(&Key::Named(name), m, captured, false)
}

fn letter(text: &str, m: Modifiers, captured: bool) -> Option<Shortcut> {
    keyboard_message(&Key::Character(text.to_string()), m, captured, false)
}

#[test]
fn history_shortcut_uses_history_messages() {
    assert_eq!(named(Named::ArrowLeft, alt(), false), Some(Shortcut::Back));
    assert_eq!(named(Named::ArrowRight, alt(), false), Some(Shortcut::Forward));
    assert_eq!(named(Named::ArrowLeft, shift(), false), None);
    let mac = keyboard_message(&Key::Named(Named::ArrowLeft), logo(), false, true);
    assert_eq!(mac, Some(Shortcut::Back));
    assert!(matches!(Shortcut::Back.message(None), Message::HistoryBack));
    assert!(matches!(Shortcut::Forward.message(None), Message::HistoryForward));
}

#[test]
fn annot_shortcuts_mark_undo_redo() {
    assert_eq!(letter("h", none(), false), Some(Shortcut::Annotate(AnnotKind::Highlight)));
    assert_eq!(letter("U", none(), false), Some(Shortcut::Annotate(AnnotKind::Underline)));
    assert_eq!(letter("s", none(), false), Some(Shortcut::Annotate(AnnotKind::Strikeout)));
    assert_eq!(letter("n", none(), false), Some(Shortcut::Annotate(AnnotKind::Note)));
    assert_eq!(letter("N", none(), false), Some(Shortcut::Annotate(AnnotKind::Note)));
    assert_eq!(letter("n", shift(), false), None);
    assert_eq!(letter("z", control(), false), Some(Shortcut::Undo));
    let both = Modifiers { shift: true, ..control() };
    assert_eq!(letter("Z", both, false), Some(Shortcut::Redo));
    assert_eq!(letter("h", none(), true), None);
    let mac = keyboard_message(&Key::Character("z".to_string()), logo(), false, true);
    assert_eq!(mac, Some(Shortcut::Undo));
}

#[test]
fn outline_keys_map_to_outline_messages() {
    assert_eq!(named(Named::ArrowUp, none(), false), Some(Shortcut::Outline(OutlineKey::Prev)));
    assert_eq!(named(Named::ArrowDown, none(), false), Some(Shortcut::Outline(OutlineKey::Next)));
    assert_eq!(named(Named::Enter, none(), false), Some(Shortcut::Outline(OutlineKey::Activate)));
    assert_eq!(named(Named::ArrowUp, shift(), false), None);
    assert_eq!(named(Named::Enter, none(), true), None);
}

#[test]
fn keyboard_message_respects_focus_and_modifiers() {
    assert_eq!(named(Named::PageDown, none(), false), Some(Shortcut::Nav(NavCmd::Next)));
    assert_eq!(named(Named::ArrowLeft, none(), false), Some(Shortcut::Nav(NavCmd::Previous)));
    assert_eq!(named(Named::ArrowRight, none(), false), Some(Shortcut::Nav(NavCmd::Next)));
    assert_eq!(named(Named::Home, none(), true), None);
    assert_eq!(named(Named::End, shift(), false), None);
    assert_eq!(named(Named::End, none(), false), Some(Shortcut::Nav(NavCmd::Last)));
    assert_eq!(named(Named::Other, none(), false), None);
}

#[test]
fn keyboard_r_rotates_view_with_focus_guard() {
    assert_eq!(letter("r", none(), false), Some(Shortcut::Rotate));
    assert_eq!(letter("r", shift(), false), None);
    assert_eq!(letter("r", none(), true), None);
    assert_eq!(letter("rr", none(), false), None);
}

#[test]
fn escape_maps_to_close_dialog() {
    let found = named(Named::Escape, none(), false);
    assert_eq!(found, Some(Shortcut::Escape));
    assert!(matches!(Shortcut::Escape.message(None), Message::ClosePrintDialog));
}

#[test]
fn notes_are_saved_from_within_their_field() {
    assert_eq!(named(Named::Enter, control(), true), Some(Shortcut::SaveNote));
    assert_eq!(named(Named::Enter, logo(), true), Some(Shortcut::SaveNote));
    assert_eq!(named(Named::Enter, Modifiers { alt: true, ..control() }, true), None);
}

#[test]
fn tabs_have_their_keys() {
    assert_eq!(named(Named::Tab, control(), false), Some(Shortcut::CycleTab(1)));
    let back = Modifiers { shift: true, ..control() };
    assert_eq!(named(Named::Tab, back, false), Some(Shortcut::CycleTab(-1)));
    assert_eq!(letter("w", control(), false), Some(Shortcut::CloseTab));
    assert_eq!(letter("T", control(), false), Some(Shortcut::Open));
    let source = OpenSource::Path("/tmp/a.pdf".to_string());
    match Shortcut::Open.message(Some(source)) {
        Message::PickFile { chosen } => assert_eq!(chosen.map(|s| s.path().to_string()), Some("/tmp/a.pdf".to_string())),
        other => panic!("unexpected {other:?}"),
    }
}
