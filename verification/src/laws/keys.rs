//! The keys of the keyboard, and what they do.

use vstd::prelude::*;

use crate::annot::AnnotKind;
use crate::keyboard::{message_of, shortcut, Key, Modifiers, Named};
use crate::messages::Message;
use crate::state::{NavCmd, OpenSource, OutlineKey};

verus! {

/// What a key does, if anything.
pub open spec fn does(key: Key, m: Modifiers, captured: bool, mac: bool) -> Option<Message> {
    match shortcut(key, m, captured, mac) {
        Some(s) => Some(message_of(s, None)),
        None => None,
    }
}

/// No key is held down beside another.
pub open spec fn alone() -> Modifiers {
    Modifiers { shift: false, control: false, alt: false, logo: false }
}

/// Only the command key is held down, and the shift key if so said.
pub open spec fn command(mac: bool, shift: bool) -> Modifiers {
    Modifiers { shift, control: !mac, alt: false, logo: mac }
}

/// The keys with names turn pages, walk through the table of contents and close
/// what is open.
pub proof fn law_named_keys(name: Named, mac: bool)
    ensures
        does(Key::Named(name), alone(), false, mac) == match name {
            Named::PageUp => Some(Message::Nav { cmd: NavCmd::Previous }),
            Named::ArrowLeft => Some(Message::Nav { cmd: NavCmd::Previous }),
            Named::PageDown => Some(Message::Nav { cmd: NavCmd::Next }),
            Named::ArrowRight => Some(Message::Nav { cmd: NavCmd::Next }),
            Named::Home => Some(Message::Nav { cmd: NavCmd::First }),
            Named::End => Some(Message::Nav { cmd: NavCmd::Last }),
            Named::Escape => Some(Message::ClosePrintDialog),
            Named::ArrowUp => Some(Message::OutlineKey { key: OutlineKey::Prev }),
            Named::ArrowDown => Some(Message::OutlineKey { key: OutlineKey::Next }),
            Named::Enter => Some(Message::OutlineKey { key: OutlineKey::Activate }),
            Named::Tab => None,
            Named::Other => None,
        },
{
}

/// The letters turn the view and mark what is selected, in either case; other
/// letters do nothing.
pub proof fn law_letters(text: String, ch: char, mac: bool)
    requires
        text@ == seq![ch],
    ensures
        does(Key::Character(text), alone(), false, mac) == if ch == 'r' || ch == 'R' {
            Some(Message::RotateView)
        } else if ch == 'h' || ch == 'H' {
            Some(Message::Annotate { kind: AnnotKind::Highlight })
        } else if ch == 'u' || ch == 'U' {
            Some(Message::Annotate { kind: AnnotKind::Underline })
        } else if ch == 's' || ch == 'S' {
            Some(Message::Annotate { kind: AnnotKind::Strikeout })
        } else if ch == 'n' || ch == 'N' {
            Some(Message::Annotate { kind: AnnotKind::Note })
        } else {
            None
        },
{
    assert(seq![ch][0] == ch);
    assert forall|other: char| seq![ch] == #[trigger] seq![other] implies ch == other by {
        assert(seq![other][0] == other);
    }
}

/// With the command key, letters undo and redo, open a document and close a
/// tab; other letters do nothing.
pub proof fn law_command_letters(text: String, ch: char, mac: bool, shift: bool)
    requires
        text@ == seq![ch],
    ensures
        does(Key::Character(text), command(mac, shift), false, mac) == if ch == 'z' || ch == 'Z' {
            Some(
                if shift {
                    Message::AnnotRedo
                } else {
                    Message::AnnotUndo
                },
            )
        } else if ch == 't' || ch == 'T' {
            Some(Message::PickFile { chosen: None })
        } else if ch == 'w' || ch == 'W' {
            Some(Message::CloseTabActive)
        } else {
            None
        },
{
    assert(seq![ch][0] == ch);
    assert forall|other: char| seq![ch] == #[trigger] seq![other] implies ch == other by {
        assert(seq![other][0] == other);
    }
}

/// The document that a shortcut opens is the one that was picked.
pub proof fn law_picked_document_is_opened(chosen: Option<OpenSource>)
    ensures
        message_of(crate::keyboard::Shortcut::Open, chosen) == (Message::PickFile { chosen }),
{
}

/// The history is walked through with the arrows and the key that the system
/// has for it; the tabs go round with the control and the tab key.
pub proof fn law_arrows_and_tabs(mac: bool, shift: bool)
    ensures
        ({
            let held = Modifiers { shift: false, control: false, alt: !mac, logo: mac };
            let control = Modifiers { shift, control: true, alt: false, logo: false };
            &&& does(Key::Named(Named::ArrowLeft), held, false, mac) == Some(Message::HistoryBack)
            &&& does(Key::Named(Named::ArrowRight), held, false, mac) == Some(
                Message::HistoryForward,
            )
            &&& does(Key::Named(Named::Tab), control, false, mac) == Some(
                Message::CycleTab {
                    step: if shift {
                        -1i32
                    } else {
                        1i32
                    },
                },
            )
        }),
{
}

/// The enter key with the command or the control key saves a note, also where a
/// field has the keyboard; of all other keys the field keeps its own.
pub proof fn law_enter_saves_a_note(key: Key, m: Modifiers, captured: bool, mac: bool)
    ensures
        (m.logo || m.control) && !m.alt ==> does(Key::Named(Named::Enter), m, captured, mac) == Some(
            Message::NoteSave,
        ),
        captured && does(key, m, captured, mac) is Some ==> does(key, m, captured, mac) == Some(
            Message::NoteSave,
        ) && key == Key::Named(Named::Enter),
{
}

} // verus!
