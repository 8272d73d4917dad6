//! What the keys of the keyboard stand for.

use vstd::prelude::*;

use crate::annot::AnnotKind;
use crate::messages::Message;
use crate::state::{NavCmd, OpenSource, OutlineKey};
use crate::text::chars_of;

verus! {

/// A key with a name.
#[derive(Debug, Clone, Copy, PartialEq, Eq, Structural)]
pub enum Named {
    Enter,
    Escape,
    Tab,
    PageUp,
    PageDown,
    Home,
    End,
    ArrowUp,
    ArrowDown,
    ArrowLeft,
    ArrowRight,
    Other,
}

/// A key: one with a name, or what it types.
#[derive(Debug)]
pub enum Key {
    Named(Named),
    Character(String),
}

/// The keys that are held down beside a key.
#[derive(Debug, Clone, Copy, PartialEq, Eq, Structural)]
pub struct Modifiers {
    pub shift: bool,
    pub control: bool,
    pub alt: bool,
    pub logo: bool,
}

/// What a key stands for.
#[derive(Debug, Clone, Copy, PartialEq, Eq, Structural)]
pub enum Shortcut {
    SaveNote,
    Undo,
    Redo,
    Open,
    CloseTab,
    CycleTab(i32),
    Back,
    Forward,
    Nav(NavCmd),
    Rotate,
    Annotate(AnnotKind),
    Escape,
    Outline(OutlineKey),
}

impl Key {
    /// Whether the key types a letter, in either case.
    pub open spec fn types(self, lower: char, upper: char) -> bool {
        match self {
            Key::Character(text) => text@ == seq![lower] || text@ == seq![upper],
            Key::Named(_) => false,
        }
    }

    pub open spec fn is_named(self, name: Named) -> bool {
        match self {
            Key::Named(n) => n == name,
            Key::Character(_) => false,
        }
    }

    fn letter(&self) -> (r: Option<char>)
        ensures
            match self {
                Key::Character(text) => if text@.len() == 1 {
                    r == Some(text@[0])
                } else {
                    r is None
                },
                Key::Named(_) => r is None,
            },
    {
        match self {
            Key::Character(text) => {
                let chars = chars_of(text.as_str());
                if chars.len() == 1 {
                    Some(chars[0])
                } else {
                    None
                }
            },
            Key::Named(_) => None,
        }
    }

    fn has_letter(&self, lower: char, upper: char) -> (r: bool)
        ensures
            r == self.types(lower, upper),
    {
        let r = match self.letter() {
            Some(ch) => ch == lower || ch == upper,
            None => false,
        };
        proof {
            if let Key::Character(text) = self {
                if r {
                    assert(text@ =~= seq![text@[0]]);
                }
                if text@ == seq![lower] {
                    assert(text@.len() == 1 && text@[0] == lower);
                }
                if text@ == seq![upper] {
                    assert(text@.len() == 1 && text@[0] == upper);
                }
            }
        }
        r
    }

    fn name(&self) -> (r: Option<Named>)
        ensures
            match self {
                Key::Named(n) => r == Some(*n),
                Key::Character(_) => r is None,
            },
    {
        match self {
            Key::Named(n) => Some(*n),
            Key::Character(_) => None,
        }
    }
}

/// What a key stands for with the command key held down: to undo and redo,
/// to open a document, to close a tab.
pub open spec fn command_key(key: Key, m: Modifiers) -> Option<Shortcut> {
    if key.types('z', 'Z') {
        if m.shift {
            Some(Shortcut::Redo)
        } else {
            Some(Shortcut::Undo)
        }
    } else if key.types('t', 'T') {
        Some(Shortcut::Open)
    } else if key.types('w', 'W') {
        Some(Shortcut::CloseTab)
    } else {
        None
    }
}

/// What a key stands for on its own.
pub open spec fn plain_key(key: Key) -> Option<Shortcut> {
    if key.is_named(Named::PageUp) || key.is_named(Named::ArrowLeft) {
        Some(Shortcut::Nav(NavCmd::Previous))
    } else if key.is_named(Named::PageDown) || key.is_named(Named::ArrowRight) {
        Some(Shortcut::Nav(NavCmd::Next))
    } else if key.is_named(Named::Home) {
        Some(Shortcut::Nav(NavCmd::First))
    } else if key.is_named(Named::End) {
        Some(Shortcut::Nav(NavCmd::Last))
    } else if key.types('r', 'R') {
        Some(Shortcut::Rotate)
    } else if key.types('h', 'H') {
        Some(Shortcut::Annotate(AnnotKind::Highlight))
    } else if key.types('u', 'U') {
        Some(Shortcut::Annotate(AnnotKind::Underline))
    } else if key.types('s', 'S') {
        Some(Shortcut::Annotate(AnnotKind::Strikeout))
    } else if key.types('n', 'N') {
        Some(Shortcut::Annotate(AnnotKind::Note))
    } else if key.is_named(Named::Escape) {
        Some(Shortcut::Escape)
    } else if key.is_named(Named::ArrowUp) {
        Some(Shortcut::Outline(OutlineKey::Prev))
    } else if key.is_named(Named::ArrowDown) {
        Some(Shortcut::Outline(OutlineKey::Next))
    } else if key.is_named(Named::Enter) {
        Some(Shortcut::Outline(OutlineKey::Activate))
    } else {
        None
    }
}

/// Whether the command key is held down, which is another one on a Mac.
pub open spec fn command_held(m: Modifiers, mac: bool) -> bool {
    if mac {
        m.logo && !m.control && !m.alt
    } else {
        m.control && !m.logo && !m.alt
    }
}

/// Whether the key of the history is held down, and no other.
pub open spec fn history_held(m: Modifiers, mac: bool) -> bool {
    if mac {
        m.logo && !m.alt && !m.control && !m.shift
    } else {
        m.alt && !m.logo && !m.control && !m.shift
    }
}

/// What a key stands for, given the keys held down beside it. One that a field
/// took for itself stands for nothing, but for the one that saves a note.
pub open spec fn shortcut(key: Key, m: Modifiers, captured: bool, mac: bool) -> Option<Shortcut> {
    if (m.logo || m.control) && !m.alt && key.is_named(Named::Enter) {
        Some(Shortcut::SaveNote)
    } else if captured {
        None
    } else if command_held(m, mac) && command_key(key, m) is Some {
        command_key(key, m)
    } else if m.control && !m.logo && !m.alt && key.is_named(Named::Tab) {
        Some(
            Shortcut::CycleTab(
                if m.shift {
                    -1i32
                } else {
                    1i32
                },
            ),
        )
    } else if history_held(m, mac) {
        if key.is_named(Named::ArrowLeft) {
            Some(Shortcut::Back)
        } else if key.is_named(Named::ArrowRight) {
            Some(Shortcut::Forward)
        } else {
            None
        }
    } else if m.shift || m.control || m.alt || m.logo {
        None
    } else {
        plain_key(key)
    }
}

fn on_command(key: &Key, m: Modifiers) -> (r: Option<Shortcut>)
    ensures
        r == command_key(*key, m),
{
    if key.has_letter('z', 'Z') {
        if m.shift {
            Some(Shortcut::Redo)
        } else {
            Some(Shortcut::Undo)
        }
    } else if key.has_letter('t', 'T') {
        Some(Shortcut::Open)
    } else if key.has_letter('w', 'W') {
        Some(Shortcut::CloseTab)
    } else {
        None
    }
}

fn on_plain(key: &Key) -> (r: Option<Shortcut>)
    ensures
        r == plain_key(*key),
{
    match key.name() {
        Some(Named::PageUp) => Some(Shortcut::Nav(NavCmd::Previous)),
        Some(Named::ArrowLeft) => Some(Shortcut::Nav(NavCmd::Previous)),
        Some(Named::PageDown) => Some(Shortcut::Nav(NavCmd::Next)),
        Some(Named::ArrowRight) => Some(Shortcut::Nav(NavCmd::Next)),
        Some(Named::Home) => Some(Shortcut::Nav(NavCmd::First)),
        Some(Named::End) => Some(Shortcut::Nav(NavCmd::Last)),
        Some(Named::Escape) => Some(Shortcut::Escape),
        Some(Named::ArrowUp) => Some(Shortcut::Outline(OutlineKey::Prev)),
        Some(Named::ArrowDown) => Some(Shortcut::Outline(OutlineKey::Next)),
        Some(Named::Enter) => Some(Shortcut::Outline(OutlineKey::Activate)),
        Some(_) => None,
        None => {
            if key.has_letter('r', 'R') {
                Some(Shortcut::Rotate)
            } else if key.has_letter('h', 'H') {
                Some(Shortcut::Annotate(AnnotKind::Highlight))
            } else if key.has_letter('u', 'U') {
                Some(Shortcut::Annotate(AnnotKind::Underline))
            } else if key.has_letter('s', 'S') {
                Some(Shortcut::Annotate(AnnotKind::Strikeout))
            } else if key.has_letter('n', 'N') {
                Some(Shortcut::Annotate(AnnotKind::Note))
            } else {
                None
            }
        },
    }
}

/// What a key stands for. `captured` is whether a field took it for itself,
/// and `mac` whether the window is one on a Mac.
pub fn keyboard_message(key: &Key, m: Modifiers, captured: bool, mac: bool) -> (r: Option<Shortcut>)
    ensures
        r == shortcut(*key, m, captured, mac),
{
    let name = key.name();
    let enter = match name {
        Some(n) => n == Named::Enter,
        None => false,
    };
    if (m.logo || m.control) && !m.alt && enter {
        return Some(Shortcut::SaveNote);
    }
    if captured {
        return None;
    }
    let cmd = if mac {
        m.logo && !m.control && !m.alt
    } else {
        m.control && !m.logo && !m.alt
    };
    if cmd {
        if let Some(found) = on_command(key, m) {
            return Some(found);
        }
    }
    let tab = match name {
        Some(n) => n == Named::Tab,
        None => false,
    };
    if m.control && !m.logo && !m.alt && tab {
        return Some(
            Shortcut::CycleTab(
                if m.shift {
                    -1i32
                } else {
                    1i32
                },
            ),
        );
    }
    let hist_mod = if mac {
        m.logo && !m.alt && !m.control && !m.shift
    } else {
        m.alt && !m.logo && !m.control && !m.shift
    };
    if hist_mod {
        return match name {
            Some(Named::ArrowLeft) => Some(Shortcut::Back),
            Some(Named::ArrowRight) => Some(Shortcut::Forward),
            _ => None,
        };
    }
    if m.shift || m.control || m.alt || m.logo {
        return None;
    }
    on_plain(key)
}

/// The message that a shortcut stands for. The document is the one that was
/// picked, if a shortcut asks for one.
pub open spec fn message_of(shortcut: Shortcut, chosen: Option<OpenSource>) -> Message {
    match shortcut {
        Shortcut::SaveNote => Message::NoteSave,
        Shortcut::Undo => Message::AnnotUndo,
        Shortcut::Redo => Message::AnnotRedo,
        Shortcut::Open => Message::PickFile { chosen },
        Shortcut::CloseTab => Message::CloseTabActive,
        Shortcut::CycleTab(step) => Message::CycleTab { step },
        Shortcut::Back => Message::HistoryBack,
        Shortcut::Forward => Message::HistoryForward,
        Shortcut::Nav(cmd) => Message::Nav { cmd },
        Shortcut::Rotate => Message::RotateView,
        Shortcut::Annotate(kind) => Message::Annotate { kind },
        Shortcut::Escape => Message::ClosePrintDialog,
        Shortcut::Outline(key) => Message::OutlineKey { key },
    }
}

impl Shortcut {
    /// The message that a shortcut stands for.
    pub fn message(self, chosen: Option<OpenSource>) -> (message: Message)
        ensures
            message == message_of(self, chosen),
    {
        match self {
            Shortcut::SaveNote => Message::NoteSave,
            Shortcut::Undo => Message::AnnotUndo,
            Shortcut::Redo => Message::AnnotRedo,
            Shortcut::Open => Message::PickFile { chosen },
            Shortcut::CloseTab => Message::CloseTabActive,
            Shortcut::CycleTab(step) => Message::CycleTab { step },
            Shortcut::Back => Message::HistoryBack,
            Shortcut::Forward => Message::HistoryForward,
            Shortcut::Nav(cmd) => Message::Nav { cmd },
            Shortcut::Rotate => Message::RotateView,
            Shortcut::Annotate(kind) => Message::Annotate { kind },
            Shortcut::Escape => Message::ClosePrintDialog,
            Shortcut::Outline(key) => Message::OutlineKey { key },
        }
    }
}

/// A key that a field took for itself stands for nothing, but for the one
/// that saves a note.
pub proof fn law_fields_keep_their_keys(key: Key, m: Modifiers, mac: bool)
    ensures
        shortcut(key, m, true, mac) is Some ==> shortcut(key, m, true, mac) == Some(
            Shortcut::SaveNote,
        ),
{
}

/// A letter with a key held down beside it marks nothing and turns nothing.
pub proof fn law_held_keys_do_not_mark(key: Key, m: Modifiers, captured: bool, mac: bool)
    requires
        m.shift || m.control || m.alt || m.logo,
    ensures
        match shortcut(key, m, captured, mac) {
            Some(Shortcut::Annotate(_)) => false,
            Some(Shortcut::Rotate) => false,
            Some(Shortcut::Nav(_)) => false,
            Some(Shortcut::Escape) => false,
            Some(Shortcut::Outline(_)) => false,
            _ => true,
        },
{
}

} // verus!
