//! What the window shows.

use tsuro::annot::AnnotKind;
use tsuro::browse::{drop_recent, merge_recents, push_recent, EmptyState, FsEntry, Theme};
use tsuro::messages::Message;
use tsuro::page::{
    Coord, Glyph, MediaBox, Outline, OutlineItem, PageNo, Point, Quad, Scale, TextLayer, TextRange, Viewport,
};
use tsuro::print::{PrintDialog, PrinterInfo};
use tsuro::ready::Ready;
use tsuro::session::Session;
use tsuro::state::{
    Action, Geometry, NavCmd, NoteDraft, OpenSource, PdfAnalysis, Selection, SignatureInfo, SignatureStatus, ViewMode,
    Zoom,
};
use tsuro::tabs::Tabs;
use tsuro::view::{
    empty_browser, entry_message, hud, ink_of, layer, middle_truncate, note_card, outline_tab, outline_title,
    overflow_menu, picked_printer, print_controls, print_pager, progress, recent_rows, short_name, signer_label,
    status_label, status_line, tab_strip, topbar, verdict_of, with_marks, worst_verdict, Command, Ink, Layer, Listing,
    MarkDrag, MarkShape,
    MenuRow, PointerEvent, PointerReport, Printers, TopBar, Verdict,
};

fn c(value: f32) -> Coord {
    let bits = (value.to_bits() & 0x7fff_ffff) as i32;
    if value.is_sign_negative() {
        Coord(-bits)
    } else {
        Coord(bits)
    }
}

fn f(value: Coord) -> f32 {
    let magnitude = f32::from_bits(value.0.unsigned_abs());
    if value.0 < 0 {
        -magnitude
    } else {
        magnitude
    }
}

fn rect(left: f32, bottom: f32, right: f32, top: f32) -> Quad {
    Quad::from_rect(c(left), c(bottom), c(right), c(top))
}

fn text_page(page: u32) -> TextLayer {
    let plain = "Guia de leitura";
    let glyphs = plain
        .chars()
        .enumerate()
        .map(|(i, ch)| {
            let x = 72.0 + i as f32 * 8.0;
            Glyph { cluster: ch.to_string(), quad: rect(x, 700.0, x + 8.0, 710.0) }
        })
        .collect();
    TextLayer { page: PageNo::from_index(page), plain: plain.to_string(), glyphs }
}

fn a4() -> MediaBox {
    MediaBox { width: c(595.0), height: c(842.0) }
}

fn sample_pages(total: u32) -> Ready {
    let source = OpenSource::Path("/docs/guia-folio.pdf".to_string());
    let first = Ok((a4(), text_page(0)));
    Ready::from_parts(source, Ok((7, total)), first, Ok(PdfAnalysis { signatures: Vec::new() })).unwrap()
}

fn sample_ready() -> Ready {
    sample_pages(2)
}

fn factor(ready: &Ready, page: PageNo) -> f32 {
    let media = ready.rotated_media(page);
    let mut width = f(ready.viewport.width) - 8.0;
    if ready.pages_open {
        width -= 156.0 + 12.0;
    }
    if ready.signatures_open {
        width -= 220.0 + 12.0;
    }
    let width = (width - 48.0).max(1.0);
    let height = (f(ready.viewport.height) - 8.0).max(1.0);
    match ready.zoom {
        Zoom::Manual(z) => f(z.get()),
        Zoom::Width => width / f(media.width).max(1.0),
        Zoom::Page => (width / f(media.width).max(1.0)).min(height / f(media.height).max(1.0)),
    }
}

fn dpr(ready: &Ready) -> f32 {
    f(ready.render_scale).max(1.0)
}

fn page_scale(ready: &Ready, page: PageNo) -> Scale {
    Scale::from_factor((factor(ready, page) * dpr(ready) * 1000.0).round() as u32)
}

fn thumb_scale(ready: &Ready, page: PageNo) -> Scale {
    let fit = (120.0 / f(ready.media(page).width).max(1.0)).clamp(0.05, 2.0);
    Scale::from_factor((fit * dpr(ready) * 1000.0).round() as u32)
}

fn geometry(ready: &Ready) -> Geometry {
    let mut scales = Vec::new();
    let mut thumb_scales = Vec::new();
    let mut pixels = Vec::new();
    for i in 0..ready.page_count() {
        let page = PageNo::from_index(i);
        let scale = page_scale(ready, page);
        let media = ready.media(page);
        let by = scale.factor() as f32 / 1000.0;
        scales.push(scale);
        thumb_scales.push(thumb_scale(ready, page));
        pixels.push(((f(media.width) * by).round() as u64, (f(media.height) * by).round() as u64));
    }
    Geometry {
        scales,
        thumb_scales,
        pixels,
        blank: Scale::from_factor(65_000),
        window_first: 0,
        window_last: 0,
        thumb_first: (f(ready.pages_scroll_y) / 156.0).floor().max(0.0) as u32,
    }
}

fn active(session: &Session) -> &Ready {
    match session {
        Session::Ready(tabs) => tabs.active(),
        other => panic!("expected documents, got {other:?}"),
    }
}

fn active_mut(session: &mut Session) -> &mut Ready {
    match session {
        Session::Ready(tabs) => {
            let i = tabs.active;
            &mut tabs.docs[i]
        }
        other => panic!("expected documents, got {other:?}"),
    }
}

fn window(ready: Ready) -> Session {
    Session::Ready(Tabs::single(ready))
}

fn apply(session: &mut Session, message: Message) -> Vec<Action> {
    let mut done = Vec::new();
    for action in session.update(message) {
        if matches!(action, Action::Schedule) {
            if let Session::Ready(_) = session {
                let g = geometry(active(session));
                if let Some(work) = session.schedule_work(&g) {
                    done.push(work);
                }
            }
        }
        done.push(action);
    }
    done
}

fn go_to(index: u32) -> Message {
    Message::Nav { cmd: NavCmd::GoTo(PageNo::from_index(index)) }
}

fn pt(x: f32, y: f32) -> Point {
    Point { x: c(x), y: c(y) }
}

fn first_two() -> Selection {
    Selection { page: PageNo::first(), range: TextRange { start: 0, end: 2 } }
}

fn signed(name: Option<&str>, common: Option<&str>) -> SignatureInfo {
    SignatureInfo {
        signer_name: name.map(|s| s.to_string()),
        common_name: common.map(|s| s.to_string()),
        status: SignatureStatus::IntactButUntrusted,
        status_detail: String::new(),
    }
}

#[test]
fn outline_title_truncates_long_labels() {
    assert_eq!(outline_title("Curto"), "Curto");
    assert_eq!(outline_title(""), "");
    let long = "Cláusula de rescisão contratual e multa por descumprimento";
    let short = outline_title(long);
    assert!(short.ends_with('…'));
    assert_eq!(short.chars().count(), 25);
    let exact: String = "a".repeat(24);
    assert_eq!(outline_title(&exact), exact);
}

#[test]
fn long_names_lose_their_middle() {
    assert_eq!(middle_truncate("curto.pdf", 24), "curto.pdf");
    let cut = middle_truncate("um-nome-de-arquivo-muito-comprido.pdf", 24);
    assert!(cut.chars().count() <= 24);
    assert!(cut.contains('…'));
    assert!(cut.starts_with("um-nome"));
    assert!(cut.ends_with(".pdf"));
    assert_eq!(short_name("/tmp/a/b.pdf"), "b.pdf");
}

#[test]
fn signatures_are_named_by_signer_then_certificate() {
    assert_eq!(signer_label(&signed(Some("Ana"), Some("cn"))), "Ana");
    assert_eq!(signer_label(&signed(None, Some("cn"))), "cn");
    assert_eq!(signer_label(&signed(None, None)), "Assinante");
    assert!(!status_label(SignatureStatus::IntactButUntrusted).is_empty());
}

#[test]
fn progress_fills_with_the_pages() {
    assert_eq!(progress(PageNo::first(), 2), 500);
    assert_eq!(progress(PageNo::from_index(1), 2), 1000);
    assert_eq!(progress(PageNo::first(), 0), 1000);
    assert_eq!(progress(PageNo::first(), 5000), 1);
}

#[test]
fn menus_offer_the_other_way_to_read() {
    let mut ready = sample_ready();
    ready.selection = Some(first_two());
    let rows = overflow_menu(&ready);
    let commands: Vec<(Command, bool)> = rows
        .iter()
        .filter_map(|row| match row {
            MenuRow::Item { command, active, .. } | MenuRow::Choice { command, active, .. } => {
                Some((*command, *active))
            }
            _ => None,
        })
        .collect();
    assert!(commands.iter().any(|(c, _)| matches!(c, Command::Print)));
    assert!(commands.iter().any(|(c, on)| matches!(c, Command::Colours(Theme::Dark)) && *on));
    assert!(commands.iter().any(|(c, on)| matches!(c, Command::Colours(Theme::Light)) && !*on));
    assert!(matches!(Command::Print.message(), Message::OpenPrintDialog));
    assert!(matches!(
        Command::Mode(ViewMode::Continuous).message(),
        Message::SetViewMode { view_mode: ViewMode::Continuous }
    ));
}

#[test]
fn bars_follow_the_window() {
    assert!(matches!(topbar(&Session::empty(Theme::Dark)), TopBar::Start { home: false }));
    let loading = Session::open_path("/a.pdf".to_string(), Vec::new(), Theme::Dark);
    assert!(matches!(topbar(&loading), TopBar::Start { home: true }));
    let mut ready = sample_ready();
    ready.selection = Some(first_two());
    ready.viewport = Viewport { width: c(1600.0), height: c(900.0) };
    match topbar(&window(ready)) {
        TopBar::Document(bar) => {
            assert_eq!(bar.name, "guia-folio.pdf");
            assert_eq!(bar.pages, 2);
            assert_eq!(bar.page_input, "1");
            assert!(bar.marking && bar.wide && !bar.marked);
        }
        other => panic!("unexpected {other:?}"),
    }
    let shown = hud(&sample_ready());
    assert_eq!((shown.page, shown.pages, shown.annotating), (1, 2, false));
    assert_eq!(hud(&sample_pages(0)).pages, 1);
}

#[test]
fn dialogs_stand_above_the_menu() {
    let mut session = window(sample_ready());
    assert_eq!(layer(&session), Layer::Nothing);
    apply(&mut session, Message::ToggleOverflow);
    assert_eq!(layer(&session), Layer::Menu);
    apply(&mut session, Message::OpenPrintDialog);
    assert_eq!(layer(&session), Layer::Print);
    assert_eq!(layer(&Session::empty(Theme::Dark)), Layer::Nothing);
}

#[test]
fn status_lines_show_what_happened() {
    let mut session = window(sample_ready());
    let Session::Ready(tabs) = &session else {
        panic!("expected Ready");
    };
    assert_eq!(status_line(tabs), None);
    apply(&mut session, Message::SaveCopyRequested);
    let Session::Ready(tabs) = &session else {
        panic!("expected Ready");
    };
    assert_eq!(status_line(tabs).as_deref(), Some("Nada para salvar — marque o texto primeiro."));
}

#[test]
fn print_controls_follow_the_dialog() {
    let mut dialog = PrintDialog::fresh(3, PageNo::first());
    assert!(matches!(print_controls(&dialog).printers, Printers::Loading));
    dialog.printers_loading = false;
    assert!(matches!(print_controls(&dialog).printers, Printers::NoneFound));
    dialog.printers = vec![PrinterInfo { name: "Jato".to_string(), is_default: true }];
    dialog.selected = Some(0);
    match print_controls(&dialog).printers {
        Printers::Listed { names, selected } => {
            assert_eq!(names, vec!["Jato".to_string()]);
            assert_eq!(selected.as_deref(), Some("Jato"));
            assert_eq!(picked_printer(&names, "Jato"), 0);
        }
        other => panic!("unexpected {other:?}"),
    }
    let controls = print_controls(&dialog);
    assert_eq!(controls.copies, "1");
    assert!(!controls.fewer && controls.more && controls.enabled);
    assert_eq!(controls.submit, "Imprimir");
    dialog.preview = 1;
    let pager = print_pager(&dialog, 3, PageNo::first());
    assert_eq!(pager.label, "2 de 3");
    assert!(pager.previous && pager.next);
    assert_eq!(pager.page, PageNo::from_index(1));
    dialog.busy = true;
    dialog.error = Some("x".to_string());
    let pager = print_pager(&dialog, 3, PageNo::first());
    assert!(!pager.previous && !pager.next);
    assert_eq!(pager.error.as_deref(), Some("Não foi possível imprimir: x"));
    assert_eq!(print_controls(&dialog).submit, "Enviando…");
}

#[test]
fn note_cards_say_what_can_be_done() {
    let mut draft = NoteDraft {
        page: PageNo::first(),
        range: TextRange { start: 0, end: 2 },
        quads: vec![],
        content: " ".to_string(),
        editing: None,
        marker: pt(0.0, 0.0),
        anchor: pt(0.0, 0.0),
        anchor_scroll: c(0.0),
    };
    let card = note_card(&draft);
    assert_eq!(card.title, "NOVA NOTA");
    assert!(!card.can_delete && !card.can_save);
    draft.editing = Some(1);
    draft.content = "a".to_string();
    let card = note_card(&draft);
    assert_eq!(card.title, "EDITAR NOTA");
    assert!(card.can_delete && card.can_save);
}

#[test]
fn recents_stand_three_to_a_row() {
    let recents: Vec<String> = (0..4).map(|i| format!("/d/{i}.pdf")).collect();
    let rows = recent_rows(&recents);
    assert_eq!(rows.len(), 2);
    assert_eq!((rows[0].cards.len(), rows[0].empty), (3, 0));
    assert_eq!((rows[1].cards.len(), rows[1].empty), (1, 2));
    assert_eq!(rows[1].cards[0].name, "3.pdf");
    assert_eq!(rows[1].cards[0].path, "/d/3.pdf");
    assert!(recent_rows(&vec![]).is_empty());
}

#[test]
fn start_pages_list_folders_and_recents() {
    let mut empty = EmptyState::start(Vec::new(), Theme::Dark, 0, c(1.0));
    let page = empty_browser(&empty, "Este computador");
    assert_eq!(page.label, "Este computador");
    assert_eq!(page.count, "0");
    assert!(page.up.is_none());
    assert_eq!(page.no_recents, Some("Nenhum arquivo recente."));
    assert!(matches!(page.listing, Listing::Nothing { .. }));
    empty.cwd = Some("/tmp/docs".to_string());
    empty.listing_error = Some("sem permissão".to_string());
    let page = empty_browser(&empty, "Este computador");
    assert_eq!(page.label, "/tmp/docs");
    assert_eq!(page.up, Some(Some("/tmp".to_string())));
    assert!(matches!(page.listing, Listing::Failed { .. }));
    let folder = FsEntry { path: "/d".to_string(), name: "d".to_string(), is_dir: true };
    assert!(matches!(entry_message(&folder), Message::BrowseTo { folder: Some(f) } if f == "/d"));
    let file = FsEntry { path: "/d/a.pdf".to_string(), name: "a.pdf".to_string(), is_dir: false };
    assert!(matches!(entry_message(&file), Message::OpenRecent { file } if file == "/d/a.pdf"));
}

#[test]
fn recents_are_listed_once() {
    let list = vec!["/a".to_string(), "/b".to_string()];
    assert_eq!(push_recent(list.clone(), "/b".to_string()), vec!["/b".to_string(), "/a".to_string()]);
    assert_eq!(drop_recent(list.clone(), "/a"), vec!["/b".to_string()]);
    let merged = merge_recents(list, vec!["/c".to_string(), "/a".to_string()]);
    assert_eq!(merged, vec!["/a".to_string(), "/b".to_string(), "/c".to_string()]);
}

#[test]
fn tab_strips_come_with_the_second_tab() {
    let mut tabs = Tabs::single(sample_ready());
    assert!(tab_strip(&tabs).is_none());
    let mut second = sample_ready();
    second.open_gen = 1;
    tabs.push(second);
    let buttons = tab_strip(&tabs).unwrap();
    assert_eq!(buttons.len(), 2);
    assert!(!buttons[0].active && buttons[1].active);
    assert_eq!(buttons[0].label, "guia-folio.pdf");
}

#[test]
fn outline_entries_show_where_the_reader_is() {
    let mut ready = sample_pages(9);
    let child = OutlineItem { title: "A1".to_string(), page: PageNo::from_index(2), children: vec![] };
    let item = OutlineItem { title: "A".to_string(), page: PageNo::first(), children: vec![child] };
    ready.outline = Some(Outline { items: vec![item] });
    ready.visible = PageNo::from_index(4);
    let entries = outline_tab(&ready);
    assert_eq!(entries.len(), 2);
    assert!(entries[0].has_children && !entries[0].collapsed && !entries[0].active);
    assert!(entries[1].active && entries[1].focused);
    assert_eq!(entries[1].depth, 1);
    ready.outline_fold(vec![0]);
    let entries = outline_tab(&ready);
    assert_eq!(entries.len(), 1);
    assert!(entries[0].collapsed && entries[0].active);
}

#[test]
fn marks_are_drawn_after_the_selection() {
    let mut ready = sample_ready();
    ready.selection = Some(first_two());
    assert!(ready.annotate_selection(AnnotKind::Underline));
    assert!(ready.open_note_draft());
    ready.note_draft.as_mut().unwrap().content = "n".to_string();
    assert!(ready.save_note_draft());
    ready.selection = Some(first_two());
    let drawn = with_marks(&ready, PageNo::first(), false, pt(0.0, 0.0));
    let inks: Vec<Ink> = drawn.iter().map(|m| ink_of(*m)).collect();
    assert_eq!(inks[0], Ink::SelectionFill);
    assert!(inks.contains(&Ink::LineBelow));
    assert!(inks.contains(&Ink::NoteLineBelow));
    assert!(inks.contains(&Ink::MarkerBox));
    assert!(with_marks(&ready, PageNo::from_index(1), false, pt(0.0, 0.0)).is_empty());
    let note = ready.marks.annotations[1].clone();
    let corner = note.marker_pt();
    ready.pointer_down(note.page, corner, pt(0.0, 0.0), &Vec::new(), &vec![note.id]);
    let drawn = with_marks(&ready, PageNo::first(), true, pt(9.0, 9.0));
    let last = drawn.last().unwrap();
    assert_eq!(ink_of(*last), Ink::DottedBox);
    assert!(matches!(last.shape, MarkShape::Marker { corner, .. } if corner == pt(9.0, 9.0)));
}

#[test]
fn drags_are_reported_until_they_end() {
    let mut drag = MarkDrag::new();
    assert_eq!(drag.update(PointerEvent::Moved), PointerReport::Nothing);
    assert_eq!(drag.update(PointerEvent::Pressed { inside: false }), PointerReport::Nothing);
    assert_eq!(drag.update(PointerEvent::Pressed { inside: true }), PointerReport::Down);
    assert_eq!(drag.update(PointerEvent::Moved), PointerReport::Move);
    assert_eq!(drag.update(PointerEvent::Other), PointerReport::Nothing);
    assert_eq!(drag.update(PointerEvent::Released { inside: true }), PointerReport::Up);
    assert_eq!(drag.update(PointerEvent::Moved), PointerReport::Nothing);
    drag.update(PointerEvent::Pressed { inside: true });
    assert_eq!(drag.update(PointerEvent::Released { inside: false }), PointerReport::Cancel);
    assert!(!drag.pressing);
}

#[test]
fn signatures_are_judged_by_the_worst() {
    let signed = |status: SignatureStatus| SignatureInfo {
        signer_name: None,
        common_name: None,
        status,
        status_detail: String::new(),
    };
    assert_eq!(worst_verdict(&Vec::new()), None);
    assert_eq!(worst_verdict(&vec![signed(SignatureStatus::Valid)]), Some(Verdict::Good));
    let mixed = vec![signed(SignatureStatus::Valid), signed(SignatureStatus::CertificateExpired)];
    assert_eq!(worst_verdict(&mixed), Some(Verdict::Doubtful));
    let broken = vec![signed(SignatureStatus::DocumentModified), signed(SignatureStatus::Unsupported)];
    assert_eq!(worst_verdict(&broken), Some(Verdict::Bad));
    assert_eq!(verdict_of(SignatureStatus::Invalid), Verdict::Bad);
}
