//! What the window shows: the rows of its menus, the parts of its bars, the
//! marks on a page, and what the pointer does to a sheet.

use vstd::prelude::*;

use crate::annot::{AnnotKind, AnnotationView};
use crate::browse::{texts, EmptyState, EmptyView, FsEntry, Theme};
use crate::messages::Message;
use crate::native::{display, displayed};
use crate::numbers::{number_text, push_number, shown, trim, trimmed};
use crate::outline::{
    copy_path, maybe_path, outline_active, outline_focus, outline_rows, row_views,
    OutlineRowView,
};
use crate::page::{Coord, PageNo, Point, Quad};
use crate::paths::{file_name, folder_of, name_of, parent_of};
use crate::print::{PrintDialog, PrintDialogView, PrintOrientation, RangeMode, MAX_COPIES};
use crate::ready::{Ready, ReadyView};
use crate::session::{Session, SessionView};
use crate::state::{NoteDraft, SignatureInfo, SignatureStatus, ViewMode, Zoom};
use crate::tabs::{Tabs, TabsView};
use crate::text::{chars_of, joined, maybe_text, push_text, sub_text};

verus! {

/// How many characters of a name are shown.
pub const NAME_MAX: usize = 24;

/// The bits of the width from which on the tools of the bar have labels.
pub const WIDE: i32 = 0x44a0_0000;

/// A name with its middle left out, if it is longer than `max`.
pub open spec fn middle_cut(name: Seq<char>, max: int) -> Seq<char> {
    if name.len() <= max {
        name
    } else {
        let head = (max - 1) / 2;
        name.take(head) + seq!['…'] + name.skip(name.len() - (max - 1 - head))
    }
}

/// A name with its middle left out, if it is longer than `max`.
pub fn middle_truncate(name: &str, max: usize) -> (r: String)
    requires
        max >= 1,
    ensures
        r@ == middle_cut(name@, max as int),
{
    let chars = chars_of(name);
    let count: usize = chars.len();
    if count <= max {
        return name.to_owned();
    }
    let head: usize = (max - 1) / 2;
    let tail: usize = max - 1 - head;
    let mut r = sub_text(&chars, 0, head);
    r.push('…');
    let end = sub_text(&chars, count - tail, count);
    push_text(&mut r, end.as_str());
    assert(r@ =~= middle_cut(name@, max as int));
    r
}

/// What is left out of a name is made up for by one character: it is as long
/// as is allowed.
pub proof fn law_cut_names_fit(name: Seq<char>, max: int)
    requires
        max >= 1,
    ensures
        middle_cut(name, max).len() <= max,
        name.len() > max ==> middle_cut(name, max).len() == max,
{
}

/// The name of a document, or its path where it has none, as it is shown.
pub open spec fn name_or_path(path: Seq<char>) -> Seq<char> {
    match name_of(path) {
        Some(name) => displayed(name),
        None => displayed(path),
    }
}

fn label_of(path: &str) -> (r: String)
    ensures
        r@ == name_or_path(path@),
{
    match file_name(path) {
        Some(name) => display(name.as_str()),
        None => display(path),
    }
}

/// A name on a tab: cut at the end.
pub open spec fn tab_label(path: Seq<char>) -> Seq<char> {
    let name = name_or_path(path);
    if name.len() <= NAME_MAX {
        name
    } else {
        name.take(NAME_MAX - 1) + seq!['…']
    }
}

/// A name on a tab: cut at the end.
pub fn short_name(path: &str) -> (r: String)
    ensures
        r@ == tab_label(path@),
{
    let name = label_of(path);
    let chars = chars_of(name.as_str());
    if chars.len() <= NAME_MAX {
        return name;
    }
    let mut r = sub_text(&chars, 0, NAME_MAX - 1);
    r.push('…');
    assert(r@ =~= tab_label(path@));
    r
}

/// A title in the table of contents: cut at the end.
pub open spec fn cut_title(title: Seq<char>) -> Seq<char> {
    if title.len() <= NAME_MAX {
        title
    } else {
        title.take(NAME_MAX as int) + seq!['…']
    }
}

/// A title in the table of contents: cut at the end.
pub fn outline_title(title: &str) -> (r: String)
    ensures
        r@ == cut_title(title@),
{
    let chars = chars_of(title);
    if chars.len() <= NAME_MAX {
        return title.to_owned();
    }
    let mut r = sub_text(&chars, 0, NAME_MAX);
    r.push('…');
    assert(r@ =~= cut_title(title@));
    r
}

/// What a signature turned out to be, in words.
pub open spec fn status_words(status: SignatureStatus) -> Seq<char> {
    match status {
        SignatureStatus::Valid => "Válida"@,
        SignatureStatus::IntactButUntrusted => "Íntegra (sem confiança pública)"@,
        SignatureStatus::DocumentModified => "Documento alterado"@,
        SignatureStatus::Invalid => "Inválida"@,
        SignatureStatus::Unsupported => "Não suportada"@,
        SignatureStatus::CertificateExpired => "Certificado expirado"@,
        SignatureStatus::CertificateNotYetValid => "Certificado ainda não válido"@,
    }
}

/// What a signature turned out to be, in words.
pub fn status_label(status: SignatureStatus) -> (r: &'static str)
    ensures
        r@ == status_words(status),
{
    match status {
        SignatureStatus::Valid => "Válida",
        SignatureStatus::IntactButUntrusted => "Íntegra (sem confiança pública)",
        SignatureStatus::DocumentModified => "Documento alterado",
        SignatureStatus::Invalid => "Inválida",
        SignatureStatus::Unsupported => "Não suportada",
        SignatureStatus::CertificateExpired => "Certificado expirado",
        SignatureStatus::CertificateNotYetValid => "Certificado ainda não válido",
    }
}

/// How a signature is judged, from the best to the worst.
#[derive(Debug, Clone, Copy, PartialEq, Eq, Structural)]
pub enum Verdict {
    Good,
    Doubtful,
    Bad,
}

impl Verdict {
    pub open spec fn of(status: SignatureStatus) -> Verdict {
        match status {
            SignatureStatus::Valid => Verdict::Good,
            SignatureStatus::DocumentModified => Verdict::Bad,
            SignatureStatus::Invalid => Verdict::Bad,
            _ => Verdict::Doubtful,
        }
    }

    /// The worse of two.
    pub open spec fn worse(self, other: Verdict) -> Verdict {
        if self == Verdict::Bad || other == Verdict::Bad {
            Verdict::Bad
        } else if self == Verdict::Doubtful || other == Verdict::Doubtful {
            Verdict::Doubtful
        } else {
            Verdict::Good
        }
    }
}

/// The worst verdict on the first `n` signatures; none without any.
pub open spec fn worst_upto(signatures: Seq<SignatureInfo>, n: int) -> Option<Verdict>
    decreases n,
{
    if n <= 0 {
        None
    } else {
        let last = Verdict::of(signatures[n - 1].status);
        match worst_upto(signatures, n - 1) {
            Some(verdict) => Some(verdict.worse(last)),
            None => Some(last),
        }
    }
}

/// How a signature is judged.
pub fn verdict_of(status: SignatureStatus) -> (verdict: Verdict)
    ensures
        verdict == Verdict::of(status),
{
    match status {
        SignatureStatus::Valid => Verdict::Good,
        SignatureStatus::DocumentModified => Verdict::Bad,
        SignatureStatus::Invalid => Verdict::Bad,
        _ => Verdict::Doubtful,
    }
}

/// How the signatures of a document are judged together: by the worst; not at
/// all without any.
pub fn worst_verdict(signatures: &Vec<SignatureInfo>) -> (worst: Option<Verdict>)
    ensures
        worst == worst_upto(signatures@, signatures@.len() as int),
{
    let mut worst: Option<Verdict> = None;
    let mut i: usize = 0;
    while i < signatures.len()
        invariant
            i <= signatures@.len(),
            worst == worst_upto(signatures@, i as int),
        decreases signatures@.len() - i,
    {
        let last = verdict_of(signatures[i].status);
        worst = match worst {
            None => Some(last),
            Some(verdict) => if verdict == Verdict::Bad || last == Verdict::Bad {
                Some(Verdict::Bad)
            } else if verdict == Verdict::Doubtful || last == Verdict::Doubtful {
                Some(Verdict::Doubtful)
            } else {
                Some(Verdict::Good)
            },
        };
        i += 1;
    }
    worst
}

/// Who signed, in words.
pub fn signer_label(signature: &SignatureInfo) -> (r: String)
    ensures
        r@ == (match signature.signer_name {
            Some(name) => name@,
            None => match signature.common_name {
                Some(name) => name@,
                None => "Assinante"@,
            },
        }),
{
    match &signature.signer_name {
        Some(name) => name.clone(),
        None => match &signature.common_name {
            Some(name) => name.clone(),
            None => "Assinante".to_owned(),
        },
    }
}

/// How many pages a document counts as having, at the least.
pub open spec fn at_least_one(total: u32) -> u32 {
    if total >= 1 {
        total
    } else {
        1
    }
}

/// How much of the bar of progress is filled, in thousandths: something at
/// least.
pub open spec fn filled(visible: PageNo, total: u32) -> int {
    let n = at_least_one(total);
    let done = if visible.0 + 1 <= n {
        visible.0 + 1
    } else {
        n as int
    };
    let part = (done * 1000) / (n as int);
    if part < 1 {
        1
    } else if part > 1000 {
        1000
    } else {
        part
    }
}

/// How much of the bar of progress is filled, in thousandths.
pub fn progress(visible: PageNo, total: u32) -> (r: u16)
    ensures
        r == filled(visible, total),
        1 <= r <= 1000,
{
    let n: u64 = if total >= 1 {
        total as u64
    } else {
        1
    };
    let done: u64 = if visible.0 as u64 + 1 <= n {
        visible.0 as u64 + 1
    } else {
        n
    };
    let part: u64 = (done * 1000) / n;
    if part < 1 {
        1
    } else if part > 1000 {
        1000
    } else {
        part as u16
    }
}

/// What a row of the menu does.
#[derive(Debug, Clone, Copy, PartialEq, Eq, Structural)]
pub enum Command {
    FitPage,
    Rotate,
    Print,
    Back,
    Forward,
    Mode(ViewMode),
    Copy,
    Undo,
    Redo,
    SaveCopy,
    Close,
    Colours(Theme),
}

/// The message that a row of the menu stands for.
pub open spec fn command_message(command: Command) -> Message {
    match command {
        Command::FitPage => Message::SetZoom { zoom: Zoom::Page },
        Command::Rotate => Message::RotateView,
        Command::Print => Message::OpenPrintDialog,
        Command::Back => Message::HistoryBack,
        Command::Forward => Message::HistoryForward,
        Command::Mode(view_mode) => Message::SetViewMode { view_mode },
        Command::Copy => Message::CopySelection,
        Command::Undo => Message::AnnotUndo,
        Command::Redo => Message::AnnotRedo,
        Command::SaveCopy => Message::SaveCopyRequested,
        Command::Close => Message::Close,
        Command::Colours(theme) => Message::SetTheme { theme },
    }
}

impl Command {
    /// The message that a row of the menu stands for.
    pub fn message(self) -> (message: Message)
        ensures
            message == command_message(self),
    {
        match self {
            Command::FitPage => Message::SetZoom { zoom: Zoom::Page },
            Command::Rotate => Message::RotateView,
            Command::Print => Message::OpenPrintDialog,
            Command::Back => Message::HistoryBack,
            Command::Forward => Message::HistoryForward,
            Command::Mode(view_mode) => Message::SetViewMode { view_mode },
            Command::Copy => Message::CopySelection,
            Command::Undo => Message::AnnotUndo,
            Command::Redo => Message::AnnotRedo,
            Command::SaveCopy => Message::SaveCopyRequested,
            Command::Close => Message::Close,
            Command::Colours(theme) => Message::SetTheme { theme },
        }
    }
}

/// A row of the menu.
#[derive(Debug)]
pub enum MenuRow {
    Item { icon: &'static str, label: &'static str, command: Command, active: bool },
    Header { label: &'static str },
    Rule,
    /// A button of those that stand side by side.
    Choice { label: &'static str, command: Command, active: bool },
}

/// What a row of the menu shows.
pub enum MenuRowView {
    Item { icon: Seq<char>, label: Seq<char>, command: Command, active: bool },
    Header { label: Seq<char> },
    Rule,
    Choice { label: Seq<char>, command: Command, active: bool },
}

impl View for MenuRow {
    type V = MenuRowView;

    open spec fn view(&self) -> MenuRowView {
        match self {
            MenuRow::Item { icon, label, command, active } => MenuRowView::Item {
                icon: icon@,
                label: label@,
                command: *command,
                active: *active,
            },
            MenuRow::Header { label } => MenuRowView::Header { label: label@ },
            MenuRow::Rule => MenuRowView::Rule,
            MenuRow::Choice { label, command, active } => MenuRowView::Choice {
                label: label@,
                command: *command,
                active: *active,
            },
        }
    }
}

/// What each row of the menu shows.
pub open spec fn menu_views(rows: Seq<MenuRow>) -> Seq<MenuRowView> {
    rows.map_values(|row: MenuRow| row@)
}

/// A row that is there only sometimes.
pub open spec fn row_if(there: bool, row: MenuRowView) -> Seq<MenuRowView> {
    if there {
        seq![row]
    } else {
        Seq::empty()
    }
}

pub open spec fn item(icon: Seq<char>, label: Seq<char>, command: Command) -> MenuRowView {
    MenuRowView::Item { icon, label, command, active: false }
}

/// The rows for the page and for the way back.
pub open spec fn page_rows(v: ReadyView) -> Seq<MenuRowView> {
    seq![
        item("fit-page"@, "Ajustar página inteira"@, Command::FitPage),
        item("rotate"@, "Girar vista (90°)"@, Command::Rotate),
        item("print"@, "Imprimir"@, Command::Print),
    ] + row_if(v.history.can_step(false), item("chevron-left"@, "Voltar"@, Command::Back)) + row_if(
        v.history.can_step(true),
        item("chevron-right"@, "Avançar"@, Command::Forward),
    )
}

/// The rows that choose between one page and all of them.
pub open spec fn mode_rows(v: ReadyView) -> Seq<MenuRowView> {
    let single = v.view_mode == ViewMode::Single;
    seq![
        MenuRowView::Header { label: "Modo de página"@ },
        MenuRowView::Item {
            icon: "page-single"@,
            label: "Página única"@,
            command: Command::Mode(ViewMode::Single),
            active: single,
        },
        MenuRowView::Item {
            icon: "continuous"@,
            label: "Rolagem contínua"@,
            command: Command::Mode(ViewMode::Continuous),
            active: !single,
        },
    ]
}

/// The rows for the selection and the marks.
pub open spec fn mark_rows(v: ReadyView) -> Seq<MenuRowView> {
    row_if(v.selected_text() is Some, item("copy"@, "Copiar seleção"@, Command::Copy)) + row_if(
        v.marks.undo.len() > 0,
        item("undo"@, "Desfazer marcação"@, Command::Undo),
    ) + row_if(v.marks.redo.len() > 0, item("redo"@, "Refazer marcação"@, Command::Redo)) + row_if(
        v.marks.annotations.len() > 0,
        item("save"@, "Salvar cópia com marcações…"@, Command::SaveCopy),
    )
}

/// The rows for the window.
pub open spec fn window_rows(v: ReadyView) -> Seq<MenuRowView> {
    let dark = v.theme == Theme::Dark;
    seq![
        item("x"@, "Fechar documento"@, Command::Close),
        MenuRowView::Rule,
        MenuRowView::Header { label: "Aparência"@ },
        MenuRowView::Choice {
            label: "Escuro"@,
            command: Command::Colours(Theme::Dark),
            active: dark,
        },
        MenuRowView::Choice {
            label: "Claro"@,
            command: Command::Colours(Theme::Light),
            active: !dark,
        },
    ]
}

/// The rows of the menu: what can be done with the document as it stands.
pub open spec fn menu_of(v: ReadyView) -> Seq<MenuRowView> {
    page_rows(v) + mode_rows(v) + mark_rows(v) + window_rows(v)
}

fn put_if(rows: &mut Vec<MenuRow>, there: bool, row: MenuRow)
    ensures
        menu_views(final(rows)@) == menu_views(old(rows)@) + row_if(there, row@),
{
    if there {
        rows.push(row);
    }
    assert(menu_views(rows@) =~= menu_views(old(rows)@) + row_if(there, row@));
}

fn put_item(
    rows: &mut Vec<MenuRow>,
    there: bool,
    icon: &'static str,
    label: &'static str,
    command: Command,
)
    ensures
        menu_views(final(rows)@) == menu_views(old(rows)@) + row_if(
            there,
            item(icon@, label@, command),
        ),
{
    put_if(rows, there, MenuRow::Item { icon, label, command, active: false });
}

fn put_page_rows(rows: &mut Vec<MenuRow>, ready: &Ready)
    requires
        ready.wf(),
    ensures
        menu_views(final(rows)@) == menu_views(old(rows)@) + page_rows(ready@),
{
    put_item(rows, true, "fit-page", "Ajustar página inteira", Command::FitPage);
    put_item(rows, true, "rotate", "Girar vista (90°)", Command::Rotate);
    put_item(rows, true, "print", "Imprimir", Command::Print);
    let back = ready.can_history_back();
    put_item(rows, back, "chevron-left", "Voltar", Command::Back);
    let forward = ready.can_history_forward();
    put_item(rows, forward, "chevron-right", "Avançar", Command::Forward);
    assert(menu_views(rows@) =~= menu_views(old(rows)@) + page_rows(ready@));
}

fn put_mode_rows(rows: &mut Vec<MenuRow>, ready: &Ready)
    ensures
        menu_views(final(rows)@) == menu_views(old(rows)@) + mode_rows(ready@),
{
    put_if(rows, true, MenuRow::Header { label: "Modo de página" });
    let single = ready.view_mode == ViewMode::Single;
    put_if(
        rows,
        true,
        MenuRow::Item {
            icon: "page-single",
            label: "Página única",
            command: Command::Mode(ViewMode::Single),
            active: single,
        },
    );
    put_if(
        rows,
        true,
        MenuRow::Item {
            icon: "continuous",
            label: "Rolagem contínua",
            command: Command::Mode(ViewMode::Continuous),
            active: !single,
        },
    );
    assert(menu_views(rows@) =~= menu_views(old(rows)@) + mode_rows(ready@));
}

fn put_mark_rows(rows: &mut Vec<MenuRow>, ready: &Ready)
    ensures
        menu_views(final(rows)@) == menu_views(old(rows)@) + mark_rows(ready@),
{
    let selected = ready.selection_plain_text().is_some();
    put_item(rows, selected, "copy", "Copiar seleção", Command::Copy);
    let undo = ready.marks.can_annot_undo();
    put_item(rows, undo, "undo", "Desfazer marcação", Command::Undo);
    let redo = ready.marks.can_annot_redo();
    put_item(rows, redo, "redo", "Refazer marcação", Command::Redo);
    let marked = ready.marks.annotations.len() > 0;
    put_item(rows, marked, "save", "Salvar cópia com marcações…", Command::SaveCopy);
    assert(menu_views(rows@) =~= menu_views(old(rows)@) + mark_rows(ready@));
}

fn put_window_rows(rows: &mut Vec<MenuRow>, ready: &Ready)
    ensures
        menu_views(final(rows)@) == menu_views(old(rows)@) + window_rows(ready@),
{
    put_item(rows, true, "x", "Fechar documento", Command::Close);
    put_if(rows, true, MenuRow::Rule);
    put_if(rows, true, MenuRow::Header { label: "Aparência" });
    let dark = ready.theme == Theme::Dark;
    put_if(
        rows,
        true,
        MenuRow::Choice {
            label: "Escuro",
            command: Command::Colours(Theme::Dark),
            active: dark,
        },
    );
    put_if(
        rows,
        true,
        MenuRow::Choice {
            label: "Claro",
            command: Command::Colours(Theme::Light),
            active: !dark,
        },
    );
    assert(menu_views(rows@) =~= menu_views(old(rows)@) + window_rows(ready@));
}

/// The rows of the menu: what can be done with the document as it stands.
pub fn overflow_menu(ready: &Ready) -> (rows: Vec<MenuRow>)
    requires
        ready.wf(),
    ensures
        menu_views(rows@) == menu_of(ready@),
{
    let mut rows: Vec<MenuRow> = Vec::new();
    put_page_rows(&mut rows, ready);
    put_mode_rows(&mut rows, ready);
    put_mark_rows(&mut rows, ready);
    put_window_rows(&mut rows, ready);
    assert(menu_views(rows@) =~= menu_of(ready@));
    rows
}

/// The bar at the top of a window.
#[derive(Debug)]
pub enum TopBar {
    /// Without a document: a way to open one, and one back to the start
    /// unless that is where the window is.
    Start { home: bool },
    Document(DocumentBar),
}

/// The bar of a document.
#[derive(Debug)]
pub struct DocumentBar {
    pub name: String,
    /// Whether there are marks that were not saved.
    pub marked: bool,
    pub query: String,
    pub page_input: String,
    pub pages: u32,
    /// Whether there is a selection to mark, and whether the tools for it
    /// have labels.
    pub marking: bool,
    pub wide: bool,
    pub pages_open: bool,
    pub signatures_open: bool,
    pub overflow_open: bool,
}

/// What the bar at the top of a window shows.
pub enum TopBarView {
    Start { home: bool },
    Document(DocumentBarView),
}

/// What the bar of a document shows.
pub struct DocumentBarView {
    pub name: Seq<char>,
    pub marked: bool,
    pub query: Seq<char>,
    pub page_input: Seq<char>,
    pub pages: u32,
    pub marking: bool,
    pub wide: bool,
    pub pages_open: bool,
    pub signatures_open: bool,
    pub overflow_open: bool,
}

impl View for DocumentBar {
    type V = DocumentBarView;

    open spec fn view(&self) -> DocumentBarView {
        DocumentBarView {
            name: self.name@,
            marked: self.marked,
            query: self.query@,
            page_input: self.page_input@,
            pages: self.pages,
            marking: self.marking,
            wide: self.wide,
            pages_open: self.pages_open,
            signatures_open: self.signatures_open,
            overflow_open: self.overflow_open,
        }
    }
}

impl View for TopBar {
    type V = TopBarView;

    open spec fn view(&self) -> TopBarView {
        match self {
            TopBar::Start { home } => TopBarView::Start { home: *home },
            TopBar::Document(bar) => TopBarView::Document(bar@),
        }
    }
}

/// What the bar of a document shows.
pub open spec fn bar_of(v: ReadyView) -> DocumentBarView {
    DocumentBarView {
        name: middle_cut(
            match name_of(v.source.place()) {
                Some(name) => displayed(name),
                None => Seq::empty(),
            },
            NAME_MAX as int,
        ),
        marked: v.marks.annotations.len() > 0,
        query: v.search.query,
        page_input: v.page_input,
        pages: at_least_one(v.pages.total),
        marking: v.selected_text() is Some,
        wide: Coord(WIDE).at_most(v.viewport.width),
        pages_open: v.pages_open,
        signatures_open: v.signatures_open,
        overflow_open: v.overflow_open,
    }
}

/// What the bar at the top of a window shows.
pub open spec fn topbar_of(s: SessionView) -> TopBarView {
    match s {
        SessionView::Ready(tabs) => TopBarView::Document(bar_of(tabs.shown())),
        SessionView::Empty(_) => TopBarView::Start { home: false },
        _ => TopBarView::Start { home: true },
    }
}

fn document_bar(ready: &Ready) -> (bar: DocumentBar)
    ensures
        bar@ == bar_of(ready@),
{
    let name = match file_name(ready.source.path()) {
        Some(name) => display(name.as_str()),
        None => String::new(),
    };
    assert(name_of(ready@.source.place()) is None ==> name@ =~= Seq::<char>::empty());
    DocumentBar {
        name: middle_truncate(name.as_str(), NAME_MAX),
        marked: ready.marks.annotations.len() > 0,
        query: ready.search.query.clone(),
        page_input: ready.page_input.clone(),
        pages: if ready.pages.total >= 1 {
            ready.pages.total
        } else {
            1
        },
        marking: ready.selection_plain_text().is_some(),
        wide: Coord(WIDE).is_at_most(ready.viewport.width),
        pages_open: ready.pages_open,
        signatures_open: ready.signatures_open,
        overflow_open: ready.overflow_open,
    }
}

/// The bar at the top of a window.
pub fn topbar(session: &Session) -> (bar: TopBar)
    requires
        session.wf(),
    ensures
        bar@ == topbar_of(session@),
{
    match session {
        Session::Ready(tabs) => TopBar::Document(document_bar(tabs.active())),
        Session::Empty(_) => TopBar::Start { home: false },
        _ => TopBar::Start { home: true },
    }
}

/// The pill at the bottom of a document.
#[derive(Debug, Clone, Copy, PartialEq, Eq, Structural)]
pub struct Hud {
    pub page: u32,
    pub pages: u32,
    /// Whether there is a selection to mark, or a mark.
    pub annotating: bool,
}

/// The pill at the bottom of a document.
pub fn hud(ready: &Ready) -> (r: Hud)
    requires
        ready.wf(),
    ensures
        r == (Hud {
            page: (ready@.visible.0 + 1) as u32,
            pages: at_least_one(ready@.pages.total),
            annotating: ready@.selected_text() is Some || ready@.marks.annotations.len() > 0,
        }),
{
    Hud {
        page: ready.visible.index() + 1,
        pages: if ready.pages.total >= 1 {
            ready.pages.total
        } else {
            1
        },
        annotating: ready.selection_plain_text().is_some() || ready.marks.annotations.len() > 0,
    }
}

/// What stands over a document and takes every click.
#[derive(Debug, Clone, Copy, PartialEq, Eq, Structural)]
pub enum Layer {
    Nothing,
    Print,
    Note,
    Warning,
    Menu,
}

/// What stands over a document: the print dialog before a note, a note before
/// a warning, a warning before the menu.
pub open spec fn layer_of(s: SessionView) -> Layer {
    match s {
        SessionView::Ready(tabs) => if tabs.shown().print_dialog is Some {
            Layer::Print
        } else if tabs.shown().note_draft is Some {
            Layer::Note
        } else if tabs.shown().save_warning {
            Layer::Warning
        } else if tabs.shown().overflow_open {
            Layer::Menu
        } else {
            Layer::Nothing
        },
        _ => Layer::Nothing,
    }
}

/// What stands over a document.
pub fn layer(session: &Session) -> (r: Layer)
    requires
        session.wf(),
    ensures
        r == layer_of(session@),
{
    match session {
        Session::Ready(tabs) => {
            let doc = tabs.active();
            if doc.print_dialog.is_some() {
                Layer::Print
            } else if doc.note_draft.is_some() {
                Layer::Note
            } else if doc.save_warning {
                Layer::Warning
            } else if doc.overflow_open {
                Layer::Menu
            } else {
                Layer::Nothing
            }
        },
        _ => Layer::Nothing,
    }
}

/// While something keeps the tabs from changing, it stands over the document.
pub proof fn law_modal_is_shown(s: SessionView)
    ensures
        s.modal() <==> (layer_of(s) == Layer::Print || layer_of(s) == Layer::Note || layer_of(s)
            == Layer::Warning),
{
}

/// The line over a document: what became of a copy, else of a print job, else
/// why a document did not open.
pub open spec fn status_of(tabs: TabsView) -> Option<Seq<char>> {
    match tabs.shown().save_status {
        Some(s) => Some(s),
        None => match tabs.shown().print_status {
            Some(s) => Some(s),
            None => tabs.open_error,
        },
    }
}

fn again(text: &Option<String>) -> (r: Option<String>)
    ensures
        maybe_text(r) == maybe_text(*text),
{
    match text {
        Some(s) => Some(s.clone()),
        None => None,
    }
}

/// The line over a document.
pub fn status_line(tabs: &Tabs) -> (r: Option<String>)
    requires
        tabs.wf(),
    ensures
        maybe_text(r) == status_of(tabs@),
{
    let doc = tabs.active();
    if doc.save_status.is_some() {
        again(&doc.save_status)
    } else if doc.print_status.is_some() {
        again(&doc.print_status)
    } else {
        again(&tabs.open_error)
    }
}

/// The printers of the print dialog.
#[derive(Debug)]
pub enum Printers {
    Loading,
    NoneFound,
    Listed { names: Vec<String>, selected: Option<String> },
}

/// What the controls of the print dialog show.
#[derive(Debug)]
pub struct PrintControls {
    pub printers: Printers,
    pub range_mode: RangeMode,
    /// Whether the first and the last page can be typed.
    pub typing: bool,
    pub copies: String,
    pub fewer: bool,
    pub more: bool,
    pub orientation: PrintOrientation,
    /// Whether the buttons take clicks.
    pub enabled: bool,
    /// What the button that prints says.
    pub submit: &'static str,
}

/// Whether the printers are shown as they are known.
pub open spec fn printers_shown(d: PrintDialogView, printers: Printers) -> bool {
    match printers {
        Printers::Loading => d.printers_loading,
        Printers::NoneFound => !d.printers_loading && d.printers.len() == 0,
        Printers::Listed { names, selected } => {
            &&& !d.printers_loading
            &&& d.printers.len() > 0
            &&& names@.len() == d.printers.len()
            &&& forall|i: int|
                0 <= i < d.printers.len() ==> (#[trigger] names@[i])@ == d.printers[i].name@
            &&& maybe_text(selected) == (match d.selected {
                Some(i) if i < d.printers.len() => Some(d.printers[i as int].name@),
                _ => None,
            })
        },
    }
}

fn printer_list(dialog: &PrintDialog) -> (r: Printers)
    ensures
        printers_shown(dialog@, r),
{
    if dialog.printers_loading {
        return Printers::Loading;
    }
    if dialog.printers.len() == 0 {
        return Printers::NoneFound;
    }
    let mut names: Vec<String> = Vec::new();
    let mut i: usize = 0;
    while i < dialog.printers.len()
        invariant
            i <= dialog.printers@.len(),
            names@.len() == i,
            forall|j: int| 0 <= j < i ==> (#[trigger] names@[j])@ == dialog.printers@[j].name@,
        decreases dialog.printers@.len() - i,
    {
        names.push(dialog.printers[i].name.clone());
        i += 1;
    }
    let selected = match dialog.selected_printer() {
        Some(printer) => Some(printer.name.clone()),
        None => None,
    };
    Printers::Listed { names, selected }
}

/// The controls of the print dialog.
pub fn print_controls(dialog: &PrintDialog) -> (r: PrintControls)
    ensures
        printers_shown(dialog@, r.printers),
        r.range_mode == dialog@.range_mode,
        r.typing == (dialog@.range_mode == RangeMode::Custom),
        r.copies@ == shown(dialog@.copies as nat),
        r.fewer == (!dialog@.busy && dialog@.copies > 1),
        r.more == (!dialog@.busy && dialog@.copies < MAX_COPIES),
        r.orientation == dialog@.orientation,
        r.enabled == !dialog@.busy,
        r.submit@ == (if dialog@.busy {
            "Enviando…"@
        } else {
            "Imprimir"@
        }),
{
    PrintControls {
        printers: printer_list(dialog),
        range_mode: dialog.range_mode,
        typing: dialog.range_mode == RangeMode::Custom,
        copies: number_text(dialog.copies as u64),
        fewer: !dialog.busy && dialog.copies > 1,
        more: !dialog.busy && dialog.copies < MAX_COPIES,
        orientation: dialog.orientation,
        enabled: !dialog.busy,
        submit: if dialog.busy {
            "Enviando…"
        } else {
            "Imprimir"
        },
    }
}

/// The place of the first of the first `n` printers with a name.
pub open spec fn printer_named(names: Seq<String>, name: Seq<char>, n: int) -> Option<int>
    decreases n,
{
    if n <= 0 {
        None
    } else {
        match printer_named(names, name, n - 1) {
            Some(i) => Some(i),
            None => if names[n - 1]@ == name {
                Some(n - 1)
            } else {
                None
            },
        }
    }
}

proof fn lemma_printer_stays(names: Seq<String>, name: Seq<char>, m: int, n: int)
    requires
        m <= n,
        printer_named(names, name, m) is Some,
    ensures
        printer_named(names, name, n) == printer_named(names, name, m),
    decreases n,
{
    if m < n {
        lemma_printer_stays(names, name, m, n - 1);
    }
}

/// The printer that was picked from the list; the first where it is not in it.
pub fn picked_printer(names: &Vec<String>, name: &str) -> (r: usize)
    ensures
        r == (match printer_named(names@, name@, names@.len() as int) {
            Some(i) => i,
            None => 0,
        }),
{
    let mut i: usize = 0;
    while i < names.len()
        invariant
            i <= names@.len(),
            printer_named(names@, name@, i as int) is None,
        decreases names@.len() - i,
    {
        if crate::text::same_text(names[i].as_str(), name) {
            proof {
                lemma_printer_stays(names@, name@, i + 1, names@.len() as int);
            }
            return i;
        }
        i += 1;
    }
    0
}

/// The pager below the preview of the print dialog.
#[derive(Debug)]
pub struct Pager {
    pub page: PageNo,
    pub label: String,
    pub previous: bool,
    pub next: bool,
    /// Why nothing was printed, in words.
    pub error: Option<String>,
}

/// The pager below the preview, and why nothing was printed.
pub fn print_pager(dialog: &PrintDialog, page_count: u32, current: PageNo) -> (r: Pager)
    ensures
        ({
            let pages = dialog@.previewed(page_count, current);
            let at = if dialog@.preview < pages.len() {
                dialog@.preview as int
            } else {
                pages.len() - 1
            };
            &&& r.page == pages[at]
            &&& r.label@ == shown((at + 1) as nat) + " de "@ + shown(pages.len())
            &&& r.previous == (!dialog@.busy && at > 0)
            &&& r.next == (!dialog@.busy && at + 1 < pages.len())
            &&& maybe_text(r.error) == (match dialog@.error {
                Some(e) => Some("Não foi possível imprimir: "@ + e),
                None => None,
            })
        }),
{
    let pages = dialog.preview_pages(page_count, current);
    let count: usize = pages.len();
    let at: usize = if dialog.preview < count {
        dialog.preview
    } else {
        count - 1
    };
    let mut label = number_text(at as u64 + 1);
    push_text(&mut label, " de ");
    push_number(&mut label, count as u64);
    let error = match &dialog.error {
        Some(e) => Some(joined("Não foi possível imprimir: ", e.as_str())),
        None => None,
    };
    Pager {
        page: pages[at],
        label,
        previous: !dialog.busy && at > 0,
        next: !dialog.busy && at < count - 1,
        error,
    }
}

/// The card of a note that is being written.
#[derive(Debug, Clone, Copy)]
pub struct NoteCard {
    pub title: &'static str,
    /// Whether the note can be deleted, and whether it can be saved.
    pub can_delete: bool,
    pub can_save: bool,
}

/// The card of a note that is being written.
pub fn note_card(draft: &NoteDraft) -> (r: NoteCard)
    ensures
        r.title@ == (if draft@.editing is Some {
            "EDITAR NOTA"@
        } else {
            "NOVA NOTA"@
        }),
        r.can_delete == (draft@.editing is Some),
        r.can_save == (trimmed(draft@.content).len() > 0),
{
    let said = trim(draft.content.as_str());
    let editing = draft.editing.is_some();
    NoteCard {
        title: if editing {
            "EDITAR NOTA"
        } else {
            "NOVA NOTA"
        },
        can_delete: editing,
        can_save: !said.as_str().is_empty(),
    }
}

/// A document that was read before, on the start page: its name and the folder
/// that it lies in.
#[derive(Debug)]
pub struct RecentCard {
    pub path: String,
    pub name: String,
    pub folder: Option<String>,
}

/// What the card of a document shows.
pub struct RecentCardView {
    pub path: Seq<char>,
    pub name: Seq<char>,
    pub folder: Option<Seq<char>>,
}

impl View for RecentCard {
    type V = RecentCardView;

    open spec fn view(&self) -> RecentCardView {
        RecentCardView { path: self.path@, name: self.name@, folder: maybe_text(self.folder) }
    }
}

/// What the card of a document shows.
pub open spec fn card_of(path: Seq<char>) -> RecentCardView {
    RecentCardView {
        path,
        name: name_or_path(path),
        folder: match folder_of(path) {
            Some(folder) => match name_of(folder) {
                Some(name) => Some(displayed(name)),
                None => None,
            },
            None => None,
        },
    }
}

/// What each card shows.
pub open spec fn card_views(cards: Seq<RecentCard>) -> Seq<RecentCardView> {
    cards.map_values(|card: RecentCard| card@)
}

/// The cards of documents, in their order.
pub open spec fn cards_of(paths: Seq<Seq<char>>) -> Seq<RecentCardView> {
    paths.map_values(|path: Seq<char>| card_of(path))
}

/// A row of the start page: cards, and how many places beside them are empty.
#[derive(Debug)]
pub struct CardRow {
    pub cards: Vec<RecentCard>,
    pub empty: usize,
}

/// The cards of the first `n` rows, one row after the other.
pub open spec fn cards_in(rows: Seq<CardRow>, n: int) -> Seq<RecentCardView>
    decreases n,
{
    if n <= 0 {
        Seq::empty()
    } else {
        cards_in(rows, n - 1) + card_views(rows[n - 1].cards@)
    }
}

/// How many cards stand in a row.
pub const ROW_CARDS: usize = 3;

/// Whether every row is full, but for the last, which holds a card at least.
pub open spec fn rows_full(rows: Seq<CardRow>) -> bool {
    forall|i: int|
        0 <= i < rows.len() ==> {
            &&& 1 <= (#[trigger] rows[i]).cards@.len() <= ROW_CARDS
            &&& rows[i].cards@.len() + rows[i].empty == ROW_CARDS
            &&& i < rows.len() - 1 ==> rows[i].cards@.len() == ROW_CARDS
        }
}

fn recent_card(path: &String) -> (card: RecentCard)
    ensures
        card@ == card_of(path@),
{
    let folder: Option<String> = match parent_of(path.as_str()) {
        Some(folder) => match file_name(folder.as_str()) {
            Some(name) => Some(display(name.as_str())),
            None => None,
        },
        None => None,
    };
    RecentCard { path: path.clone(), name: label_of(path.as_str()), folder }
}

/// The cards of documents, three to a row.
pub fn recent_rows(recents: &Vec<String>) -> (rows: Vec<CardRow>)
    ensures
        rows_full(rows@),
        cards_in(rows@, rows@.len() as int) == cards_of(texts(recents@)),
{
    let mut rows: Vec<CardRow> = Vec::new();
    let total: usize = recents.len();
    let ghost all = cards_of(texts(recents@));
    let mut i: usize = 0;
    assert(all.take(0) =~= Seq::<RecentCardView>::empty());
    while i < recents.len()
        invariant
            all == cards_of(texts(recents@)),
            all.len() == recents@.len() == total,
            i <= recents@.len(),
            rows_full(rows@),
            i < recents@.len() ==> (forall|k: int|
                0 <= k < rows@.len() ==> (#[trigger] rows@[k]).cards@.len() == ROW_CARDS),
            cards_in(rows@, rows@.len() as int) == all.take(i as int),
        decreases recents@.len() - i,
    {
        let mut cards: Vec<RecentCard> = Vec::new();
        let start: usize = i;
        let room: usize = recents.len() - start;
        let count: usize = if room < ROW_CARDS {
            room
        } else {
            ROW_CARDS
        };
        assert(card_views(cards@) =~= all.subrange(start as int, start as int));
        while cards.len() < count
            invariant
                all == cards_of(texts(recents@)),
                all.len() == recents@.len() == total,
                cards@.len() <= count,
                i == start + cards@.len(),
                start + count <= recents@.len(),
                card_views(cards@) == all.subrange(start as int, i as int),
            decreases count - cards@.len(),
        {
            let ghost before = cards@;
            let card = recent_card(&recents[i]);
            assert(texts(recents@)[i as int] == recents@[i as int]@);
            assert(all[i as int] == card@);
            cards.push(card);
            assert(card_views(cards@) =~= card_views(before).push(card@));
            i += 1;
            assert(card_views(cards@) =~= all.subrange(start as int, i as int));
        }
        let ghost before = rows@;
        let row = CardRow { cards, empty: ROW_CARDS - count };
        rows.push(row);
        proof {
            lemma_cards_in(before, rows@, before.len() as int);
            assert(rows@[before.len() as int] == row);
            assert(cards_in(rows@, rows@.len() as int) =~= all.take(i as int));
            assert forall|k: int| 0 <= k < rows@.len() implies {
                &&& 1 <= (#[trigger] rows@[k]).cards@.len() <= ROW_CARDS
                &&& rows@[k].cards@.len() + rows@[k].empty == ROW_CARDS
                &&& k < rows@.len() - 1 ==> rows@[k].cards@.len() == ROW_CARDS
            } by {
                if k < before.len() {
                    assert(rows@[k] == before[k]);
                }
            }
            if i < recents@.len() {
                assert forall|k: int| 0 <= k < rows@.len() implies (#[trigger] rows@[k]).cards@.len()
                    == ROW_CARDS by {
                    if k < before.len() {
                        assert(rows@[k] == before[k]);
                    }
                }
            }
        }
    }
    assert(all.take(i as int) =~= all);
    rows
}

proof fn lemma_cards_in(a: Seq<CardRow>, b: Seq<CardRow>, n: int)
    requires
        n <= a.len(),
        n <= b.len(),
        forall|i: int| 0 <= i < n ==> a[i] == b[i],
    ensures
        cards_in(a, n) == cards_in(b, n),
    decreases n,
{
    if n > 0 {
        lemma_cards_in(a, b, n - 1);
    }
}

/// The message of a row of a folder: a folder is looked into, a document is
/// opened.
pub fn entry_message(entry: &FsEntry) -> (message: Message)
    ensures
        match message {
            Message::BrowseTo { folder } => entry.is_dir && maybe_text(folder) == Some(
                entry.path@,
            ),
            Message::OpenRecent { file } => !entry.is_dir && file@ == entry.path@,
            _ => false,
        },
{
    if entry.is_dir {
        Message::BrowseTo { folder: Some(entry.path.clone()) }
    } else {
        Message::OpenRecent { file: entry.path.clone() }
    }
}

/// The folder that is shown on the start page.
#[derive(Debug)]
pub enum Listing {
    Failed { words: String },
    Nothing { words: &'static str },
    Entries,
}

/// The start page.
#[derive(Debug)]
pub struct StartPage {
    /// Where the way up leads, if there is one.
    pub up: Option<Option<String>>,
    pub label: String,
    pub listing: Listing,
    /// How many documents were read before, in digits, and their cards.
    pub count: String,
    pub rows: Vec<CardRow>,
    /// What stands in the place of cards where there are none.
    pub no_recents: Option<&'static str>,
}

/// Whether a folder is shown as it was listed.
pub open spec fn listing_shown(e: EmptyView, listing: Listing) -> bool {
    match listing {
        Listing::Failed { words } => e.listing_error == Some(words@),
        Listing::Nothing { words } => e.listing_error is None && e.listing.len() == 0 && words@
            == "Nenhuma pasta ou PDF aqui."@,
        Listing::Entries => e.listing_error is None && e.listing.len() > 0,
    }
}

/// The start page. `top` names the place above all folders.
pub fn empty_browser(empty: &EmptyState, top: &str) -> (r: StartPage)
    ensures
        match empty@.cwd {
            None => r.up is None,
            Some(path) => r.up is Some && maybe_text(r.up->0) == folder_of(path),
        },
        r.label@ == (match empty@.cwd {
            Some(path) => displayed(path),
            None => top@,
        }),
        listing_shown(empty@, r.listing),
        r.count@ == shown(empty@.recents.len()),
        rows_full(r.rows@),
        cards_in(r.rows@, r.rows@.len() as int) == cards_of(empty@.recents),
        match r.no_recents {
            Some(words) => empty@.recents.len() == 0 && words@ == "Nenhum arquivo recente."@,
            None => empty@.recents.len() > 0,
        },
{
    let listing = match &empty.listing_error {
        Some(e) => Listing::Failed { words: e.clone() },
        None => if empty.listing.len() == 0 {
            Listing::Nothing { words: "Nenhuma pasta ou PDF aqui." }
        } else {
            Listing::Entries
        },
    };
    let count: usize = empty.recents.len();
    StartPage {
        up: empty.parent(),
        label: empty.path_label(top),
        listing,
        count: number_text(count as u64),
        rows: recent_rows(&empty.recents),
        no_recents: if count == 0 {
            Some("Nenhum arquivo recente.")
        } else {
            None
        },
    }
}

/// A tab of the strip.
#[derive(Debug)]
pub struct TabButton {
    pub label: String,
    pub active: bool,
}

/// The strip of tabs: none for one document.
pub fn tab_strip(tabs: &Tabs) -> (r: Option<Vec<TabButton>>)
    requires
        tabs.wf(),
    ensures
        match r {
            None => tabs@.docs.len() == 1,
            Some(buttons) => tabs@.docs.len() > 1 && buttons@.len() == tabs@.docs.len() && (forall|
                i: int,
            |
                0 <= i < tabs@.docs.len() ==> (#[trigger] buttons@[i]).label@ == tab_label(
                    tabs@.docs[i].source.place(),
                ) && buttons@[i].active == (i == tabs@.active)),
        },
{
    if tabs.docs.len() <= 1 {
        return None;
    }
    let mut buttons: Vec<TabButton> = Vec::new();
    let mut i: usize = 0;
    while i < tabs.docs.len()
        invariant
            i <= tabs.docs@.len(),
            buttons@.len() == i,
            forall|j: int|
                0 <= j < i ==> (#[trigger] buttons@[j]).label@ == tab_label(
                    tabs@.docs[j].source.place(),
                ) && buttons@[j].active == (j == tabs@.active),
        decreases tabs.docs@.len() - i,
    {
        assert(tabs@.docs[i as int] == tabs.docs@[i as int]@);
        let label = short_name(tabs.docs[i].source.path());
        buttons.push(TabButton { label, active: i == tabs.active });
        i += 1;
    }
    Some(buttons)
}

/// An entry of the table of contents as it is shown.
#[derive(Debug)]
pub struct TocEntry {
    pub path: Vec<usize>,
    pub depth: usize,
    pub label: String,
    pub page: PageNo,
    /// Whether there are entries below it, and whether those are hidden.
    pub has_children: bool,
    pub collapsed: bool,
    /// Whether the visible page belongs to it, and whether the keyboard
    /// stands on it.
    pub active: bool,
    pub focused: bool,
}

/// What an entry of the table of contents shows.
pub struct TocEntryView {
    pub path: Seq<usize>,
    pub depth: nat,
    pub label: Seq<char>,
    pub page: PageNo,
    pub has_children: bool,
    pub collapsed: bool,
    pub active: bool,
    pub focused: bool,
}

impl View for TocEntry {
    type V = TocEntryView;

    open spec fn view(&self) -> TocEntryView {
        TocEntryView {
            path: self.path@,
            depth: self.depth as nat,
            label: self.label@,
            page: self.page,
            has_children: self.has_children,
            collapsed: self.collapsed,
            active: self.active,
            focused: self.focused,
        }
    }
}

/// What an entry of the table of contents shows.
pub open spec fn toc_of(v: ReadyView, row: OutlineRowView) -> TocEntryView {
    TocEntryView {
        path: row.path,
        depth: row.depth,
        label: cut_title(row.title) + " · "@ + shown((row.page.0 + 1) as nat),
        page: row.page,
        has_children: row.has_children,
        collapsed: v.outline_collapsed.contains(row.path),
        active: crate::outline::active_path(v.rows(), v.visible) == Some(row.path),
        focused: crate::outline::focus_of(v.rows(), v.outline_cursor, v.visible) == Some(row.path),
    }
}

fn same_maybe(a: &Option<Vec<usize>>, b: &Vec<usize>) -> (r: bool)
    ensures
        r == (maybe_path(*a) == Some(b@)),
{
    match a {
        Some(path) => crate::outline::same_path(path, b),
        None => false,
    }
}

/// The table of contents as it is shown.
pub fn outline_tab(ready: &Ready) -> (entries: Vec<TocEntry>)
    ensures
        entries@.len() == ready@.rows().len(),
        forall|i: int|
            0 <= i < entries@.len() ==> (#[trigger] entries@[i])@ == toc_of(
                ready@,
                ready@.rows()[i],
            ),
{
    let rows = outline_rows(&ready.outline, &ready.outline_collapsed);
    let active = outline_active(&rows, ready.visible);
    let focus = outline_focus(&rows, &ready.outline_cursor, ready.visible);
    let mut entries: Vec<TocEntry> = Vec::new();
    let mut i: usize = 0;
    while i < rows.len()
        invariant
            row_views(rows@) == ready@.rows(),
            maybe_path(active) == crate::outline::active_path(ready@.rows(), ready@.visible),
            maybe_path(focus) == crate::outline::focus_of(
                ready@.rows(),
                ready@.outline_cursor,
                ready@.visible,
            ),
            i <= rows@.len(),
            entries@.len() == i,
            forall|j: int|
                0 <= j < i ==> (#[trigger] entries@[j])@ == toc_of(ready@, ready@.rows()[j]),
        decreases rows@.len() - i,
    {
        let row = &rows[i];
        assert(ready@.rows()[i as int] == row@);
        let mut label = outline_title(row.title);
        push_text(&mut label, " · ");
        push_number(&mut label, row.page.index() as u64 + 1);
        let entry = TocEntry {
            path: copy_path(&row.path),
            depth: row.depth,
            label,
            page: row.page,
            has_children: row.has_children,
            collapsed: crate::outline::has_path(&ready.outline_collapsed, &row.path),
            active: same_maybe(&active, &row.path),
            focused: same_maybe(&focus, &row.path),
        };
        entries.push(entry);
        i += 1;
    }
    entries
}

/// Where a mark is drawn: on a line of text, or as the marker of a note, as
/// large as the first line of the note is high.
#[derive(Debug, Clone, Copy, PartialEq, Eq, Structural)]
pub enum MarkShape {
    Line { quad: Quad },
    Marker { corner: Point, first: Option<Quad> },
}

/// What is drawn over a page. Without a kind it is the selection.
#[derive(Debug, Clone, Copy, PartialEq, Eq, Structural)]
pub struct DrawMark {
    pub shape: MarkShape,
    pub kind: Option<AnnotKind>,
    /// Whether this is where a marker would be dropped.
    pub phantom: bool,
}

/// Lines of one kind, the first `n` of them.
pub open spec fn lines_drawn(quads: Seq<Quad>, kind: Option<AnnotKind>, n: int) -> Seq<DrawMark>
    decreases n,
{
    if n <= 0 {
        Seq::empty()
    } else {
        lines_drawn(quads, kind, n - 1).push(
            DrawMark { shape: MarkShape::Line { quad: quads[n - 1] }, kind, phantom: false },
        )
    }
}

/// The first line, if there is one.
pub open spec fn first_line(quads: Seq<Quad>) -> Option<Quad> {
    if quads.len() > 0 {
        Some(quads[0])
    } else {
        None
    }
}

/// What is drawn for a mark: its lines, and behind the first line of a note
/// its marker.
pub open spec fn mark_drawn(a: AnnotationView) -> Seq<DrawMark> {
    let lines = lines_drawn(a.quads, Some(a.kind), a.quads.len() as int);
    if a.kind == AnnotKind::Note && a.quads.len() > 0 {
        seq![
            lines[0],
            DrawMark {
                shape: MarkShape::Marker { corner: a.corner(), first: first_line(a.quads) },
                kind: Some(AnnotKind::Note),
                phantom: false,
            },
        ] + lines.skip(1)
    } else {
        lines
    }
}

/// What is drawn for the first `n` marks that are on a page.
pub open spec fn marks_drawn(list: Seq<AnnotationView>, page: PageNo, n: int) -> Seq<DrawMark>
    decreases n,
{
    if n <= 0 {
        Seq::empty()
    } else if list[n - 1].page == page {
        marks_drawn(list, page, n - 1) + mark_drawn(list[n - 1])
    } else {
        marks_drawn(list, page, n - 1)
    }
}

/// What is drawn for the selection, if it is on a page.
pub open spec fn selection_drawn(v: ReadyView, page: PageNo) -> Seq<DrawMark> {
    match v.selected_lines() {
        Some(quads) => if v.selection->0.page == page {
            lines_drawn(quads, None, quads.len() as int)
        } else {
            Seq::empty()
        },
        None => Seq::empty(),
    }
}

/// What is drawn for a marker that is being dragged over a page: where it
/// would be dropped, if it was dragged far enough.
pub open spec fn ghost_drawn(v: ReadyView, page: PageNo, far: bool, to: Point) -> Seq<DrawMark> {
    match v.note_drag {
        Some(drag) => if drag.page == page && far {
            match crate::annot::by_number(v.marks.annotations, drag.id) {
                Some(a) => seq![
                    DrawMark {
                        shape: MarkShape::Marker { corner: to, first: first_line(a.quads) },
                        kind: Some(AnnotKind::Note),
                        phantom: true,
                    },
                ],
                None => Seq::empty(),
            }
        } else {
            Seq::empty()
        },
        None => Seq::empty(),
    }
}

fn draw_lines(out: &mut Vec<DrawMark>, quads: &Vec<Quad>, from: usize, kind: Option<AnnotKind>)
    requires
        from <= quads@.len(),
    ensures
        final(out)@ == old(out)@ + lines_drawn(quads@, kind, quads@.len() as int).skip(from as int),
{
    let ghost all = lines_drawn(quads@, kind, quads@.len() as int);
    proof {
        lemma_lines(quads@, kind, quads@.len() as int);
    }
    let mut i: usize = from;
    assert(out@ =~= old(out)@ + all.subrange(from as int, i as int));
    while i < quads.len()
        invariant
            from <= i <= quads@.len(),
            all.len() == quads@.len(),
            forall|k: int|
                0 <= k < all.len() ==> #[trigger] all[k] == (DrawMark {
                    shape: MarkShape::Line { quad: quads@[k] },
                    kind,
                    phantom: false,
                }),
            out@ == old(out)@ + all.subrange(from as int, i as int),
        decreases quads@.len() - i,
    {
        out.push(DrawMark { shape: MarkShape::Line { quad: quads[i] }, kind, phantom: false });
        i += 1;
        assert(out@ =~= old(out)@ + all.subrange(from as int, i as int));
    }
    assert(all.subrange(from as int, i as int) =~= all.skip(from as int));
}

proof fn lemma_lines(quads: Seq<Quad>, kind: Option<AnnotKind>, n: int)
    requires
        0 <= n <= quads.len(),
    ensures
        lines_drawn(quads, kind, n).len() == n,
        forall|k: int|
            0 <= k < n ==> #[trigger] lines_drawn(quads, kind, n)[k] == (DrawMark {
                shape: MarkShape::Line { quad: quads[k] },
                kind,
                phantom: false,
            }),
    decreases n,
{
    if n > 0 {
        lemma_lines(quads, kind, n - 1);
    }
}

fn draw_mark(out: &mut Vec<DrawMark>, a: &crate::annot::Annotation)
    ensures
        final(out)@ == old(out)@ + mark_drawn(a@),
{
    proof {
        lemma_lines(a@.quads, Some(a.kind), a@.quads.len() as int);
    }
    let ghost lines = lines_drawn(a@.quads, Some(a.kind), a@.quads.len() as int);
    if a.kind == AnnotKind::Note && a.quads.len() > 0 {
        let first = a.quads[0];
        out.push(
            DrawMark {
                shape: MarkShape::Line { quad: first },
                kind: Some(AnnotKind::Note),
                phantom: false,
            },
        );
        out.push(
            DrawMark {
                shape: MarkShape::Marker { corner: a.marker_pt(), first: Some(first) },
                kind: Some(AnnotKind::Note),
                phantom: false,
            },
        );
        draw_lines(out, &a.quads, 1, Some(a.kind));
        assert(out@ =~= old(out)@ + mark_drawn(a@));
    } else {
        draw_lines(out, &a.quads, 0, Some(a.kind));
        assert(lines.skip(0) =~= lines);
    }
}

/// What is drawn over a page: the selection, the marks in their order, and a
/// marker where it would be dropped. Given are whether it was dragged far
/// enough, and where to.
pub fn with_marks(ready: &Ready, page: PageNo, far: bool, to: Point) -> (out: Vec<DrawMark>)
    ensures
        out@ == selection_drawn(ready@, page) + marks_drawn(
            ready@.marks.annotations,
            page,
            ready@.marks.annotations.len() as int,
        ) + ghost_drawn(ready@, page, far, to),
{
    let mut out: Vec<DrawMark> = Vec::new();
    if let Some(quads) = ready.selection_quads() {
        if let Some(sel) = ready.selection {
            if sel.page == page {
                draw_lines(&mut out, &quads, 0, None);
                assert(lines_drawn(quads@, None, quads@.len() as int).skip(0) =~= lines_drawn(
                    quads@,
                    None,
                    quads@.len() as int,
                ));
            }
        }
    }
    assert(out@ =~= selection_drawn(ready@, page));
    let ghost list = ready@.marks.annotations;
    let mut i: usize = 0;
    assert(out@ =~= selection_drawn(ready@, page) + marks_drawn(list, page, 0));
    while i < ready.marks.annotations.len()
        invariant
            list == ready@.marks.annotations,
            i <= ready.marks.annotations@.len(),
            out@ == selection_drawn(ready@, page) + marks_drawn(list, page, i as int),
        decreases ready.marks.annotations@.len() - i,
    {
        assert(list[i as int] == ready.marks.annotations@[i as int]@);
        if ready.marks.annotations[i].page == page {
            draw_mark(&mut out, &ready.marks.annotations[i]);
        }
        i += 1;
        assert(out@ =~= selection_drawn(ready@, page) + marks_drawn(list, page, i as int));
    }
    let ghost before = out@;
    if let Some(drag) = ready.note_drag {
        if drag.page == page && far {
            if let Some(k) = ready.marks.find(drag.id) {
                let quads = &ready.marks.annotations[k].quads;
                let first: Option<Quad> = if quads.len() > 0 {
                    Some(quads[0])
                } else {
                    None
                };
                out.push(
                    DrawMark {
                        shape: MarkShape::Marker { corner: to, first },
                        kind: Some(AnnotKind::Note),
                        phantom: true,
                    },
                );
            }
        }
    }
    assert(out@ =~= before + ghost_drawn(ready@, page, far, to));
    out
}

/// How a mark is drawn.
#[derive(Debug, Clone, Copy, PartialEq, Eq, Structural)]
pub enum Ink {
    DottedBox,
    MarkerBox,
    SelectionFill,
    HighlightFill,
    LineBelow,
    NoteLineBelow,
    LineThrough,
}

/// How a mark is drawn: what would be dropped is dotted, a marker is a box,
/// and each kind of mark has its own line or colour.
pub fn ink_of(mark: DrawMark) -> (ink: Ink)
    ensures
        ink == (if mark.phantom {
            Ink::DottedBox
        } else if mark.shape is Marker {
            Ink::MarkerBox
        } else {
            match mark.kind {
                None => Ink::SelectionFill,
                Some(AnnotKind::Highlight) => Ink::HighlightFill,
                Some(AnnotKind::Underline) => Ink::LineBelow,
                Some(AnnotKind::Note) => Ink::NoteLineBelow,
                Some(AnnotKind::Strikeout) => Ink::LineThrough,
            }
        }),
{
    if mark.phantom {
        return Ink::DottedBox;
    }
    if let MarkShape::Marker { .. } = mark.shape {
        return Ink::MarkerBox;
    }
    match mark.kind {
        None => Ink::SelectionFill,
        Some(AnnotKind::Highlight) => Ink::HighlightFill,
        Some(AnnotKind::Underline) => Ink::LineBelow,
        Some(AnnotKind::Note) => Ink::NoteLineBelow,
        Some(AnnotKind::Strikeout) => Ink::LineThrough,
    }
}

/// What the pointer does over a sheet; `inside` is whether it is on the sheet.
#[derive(Debug, Clone, Copy, PartialEq, Eq, Structural)]
pub enum PointerEvent {
    Pressed { inside: bool },
    Moved,
    Released { inside: bool },
    Other,
}

/// What a sheet reports of the pointer.
#[derive(Debug, Clone, Copy, PartialEq, Eq, Structural)]
pub enum PointerReport {
    Nothing,
    Down,
    /// At the nearest place of the sheet, where the pointer is not on it.
    Move,
    Up,
    Cancel,
}

/// A sheet after an event, and what it reports: a press on it begins a drag,
/// which goes on off the sheet, and ends where the pointer is released; off
/// the sheet it is cancelled.
pub open spec fn sheet_after(pressing: bool, event: PointerEvent) -> (bool, PointerReport) {
    match event {
        PointerEvent::Pressed { inside } => if inside {
            (true, PointerReport::Down)
        } else {
            (pressing, PointerReport::Nothing)
        },
        PointerEvent::Moved => if pressing {
            (true, PointerReport::Move)
        } else {
            (false, PointerReport::Nothing)
        },
        PointerEvent::Released { inside } => if !pressing {
            (false, PointerReport::Nothing)
        } else if inside {
            (false, PointerReport::Up)
        } else {
            (false, PointerReport::Cancel)
        },
        PointerEvent::Other => (pressing, PointerReport::Nothing),
    }
}

/// Whether a sheet is being pressed.
#[derive(Debug, Clone, Copy, PartialEq, Eq, Structural)]
pub struct MarkDrag {
    pub pressing: bool,
}

impl MarkDrag {
    pub fn new() -> (drag: MarkDrag)
        ensures
            !drag.pressing,
    {
        MarkDrag { pressing: false }
    }

    /// What the pointer does to a sheet, and what the sheet reports of it.
    pub fn update(&mut self, event: PointerEvent) -> (report: PointerReport)
        ensures
            (final(self).pressing, report) == sheet_after(old(self).pressing, event),
    {
        match event {
            PointerEvent::Pressed { inside } => {
                if inside {
                    self.pressing = true;
                    PointerReport::Down
                } else {
                    PointerReport::Nothing
                }
            },
            PointerEvent::Moved => if self.pressing {
                PointerReport::Move
            } else {
                PointerReport::Nothing
            },
            PointerEvent::Released { inside } => {
                if !self.pressing {
                    return PointerReport::Nothing;
                }
                self.pressing = false;
                if inside {
                    PointerReport::Up
                } else {
                    PointerReport::Cancel
                }
            },
            PointerEvent::Other => PointerReport::Nothing,
        }
    }
}

/// A drag that was reported as begun is reported as ended or cancelled once
/// the pointer is released, and not twice.
pub proof fn law_drags_end(pressing: bool, inside: bool, again: bool)
    ensures
        sheet_after(pressing, PointerEvent::Pressed { inside: true }).0,
        ({
            let (after, report) = sheet_after(true, PointerEvent::Released { inside });
            &&& !after
            &&& report == PointerReport::Up || report == PointerReport::Cancel
            &&& sheet_after(after, PointerEvent::Released { inside: again }).1
                == PointerReport::Nothing
            &&& sheet_after(after, PointerEvent::Moved).1 == PointerReport::Nothing
        }),
{
}

} // verus!
