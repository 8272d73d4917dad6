//! Printing, and saving a copy with the marks.

use tsuro::annot::AnnotKind;
use tsuro::browse::Theme;
use tsuro::cache::PageSet;
use tsuro::messages::Message;
use tsuro::page::{
    Bitmap, Coord, Glyph, MediaBox, PageNo, PageSurface, Quad, Scale, TextLayer, TextRange,
};
use tsuro::print::{
    choose_printer, is_turned, parse_1based, print_scale, resolve_range, PrintDialog, PrintOrientation, PrintRange,
    PrinterInfo, RangeMode, MAX_COPIES, POINTS_PER_INCH, PRINT_DPI,
};
use tsuro::ready::Ready;
use tsuro::session::Session;
use tsuro::state::{
    Action, Geometry, NavCmd, OpenSource, PdfAnalysis, Selection, SignatureInfo, SignatureStatus, Zoom,
};
use tsuro::tabs::Tabs;

fn c(value: f32) -> Coord {
    let bits = (value.to_bits() & 0x7fff_ffff) as i32;
    if value.is_sign_negative() {
        Coord(-bits)
    } else {
        Coord(bits)
    }
}

fn f(value: Coord) -> f32 {
    let magnitude = f32::from_bits(value.0.unsigned_abs());
    if value.0 < 0 {
        -magnitude
    } else {
        magnitude
    }
}

fn rect(left: f32, bottom: f32, right: f32, top: f32) -> Quad {
    Quad::from_rect(c(left), c(bottom), c(right), c(top))
}

fn text_page(page: u32) -> TextLayer {
    let plain = "Guia de leitura";
    let glyphs = plain
        .chars()
        .enumerate()
        .map(|(i, ch)| {
            let x = 72.0 + i as f32 * 8.0;
            Glyph { cluster: ch.to_string(), quad: rect(x, 700.0, x + 8.0, 710.0) }
        })
        .collect();
    TextLayer { page: PageNo::from_index(page), plain: plain.to_string(), glyphs }
}

fn a4() -> MediaBox {
    MediaBox { width: c(595.0), height: c(842.0) }
}

fn sample_pages(total: u32) -> Ready {
    let source = OpenSource::Path("/docs/guia-folio.pdf".to_string());
    let first = Ok((a4(), text_page(0)));
    Ready::from_parts(source, Ok((7, total)), first, Ok(PdfAnalysis { signatures: Vec::new() })).unwrap()
}

fn sample_ready() -> Ready {
    sample_pages(2)
}

fn factor(ready: &Ready, page: PageNo) -> f32 {
    let media = ready.rotated_media(page);
    let mut width = f(ready.viewport.width) - 8.0;
    if ready.pages_open {
        width -= 156.0 + 12.0;
    }
    if ready.signatures_open {
        width -= 220.0 + 12.0;
    }
    let width = (width - 48.0).max(1.0);
    let height = (f(ready.viewport.height) - 8.0).max(1.0);
    match ready.zoom {
        Zoom::Manual(z) => f(z.get()),
        Zoom::Width => width / f(media.width).max(1.0),
        Zoom::Page => (width / f(media.width).max(1.0)).min(height / f(media.height).max(1.0)),
    }
}

fn dpr(ready: &Ready) -> f32 {
    f(ready.render_scale).max(1.0)
}

fn page_scale(ready: &Ready, page: PageNo) -> Scale {
    Scale::from_factor((factor(ready, page) * dpr(ready) * 1000.0).round() as u32)
}

fn thumb_scale(ready: &Ready, page: PageNo) -> Scale {
    let fit = (120.0 / f(ready.media(page).width).max(1.0)).clamp(0.05, 2.0);
    Scale::from_factor((fit * dpr(ready) * 1000.0).round() as u32)
}

fn geometry(ready: &Ready) -> Geometry {
    let mut scales = Vec::new();
    let mut thumb_scales = Vec::new();
    let mut pixels = Vec::new();
    for i in 0..ready.page_count() {
        let page = PageNo::from_index(i);
        let scale = page_scale(ready, page);
        let media = ready.media(page);
        let by = scale.factor() as f32 / 1000.0;
        scales.push(scale);
        thumb_scales.push(thumb_scale(ready, page));
        pixels.push(((f(media.width) * by).round() as u64, (f(media.height) * by).round() as u64));
    }
    Geometry {
        scales,
        thumb_scales,
        pixels,
        blank: Scale::from_factor(65_000),
        window_first: 0,
        window_last: 0,
        thumb_first: (f(ready.pages_scroll_y) / 156.0).floor().max(0.0) as u32,
    }
}

fn active(session: &Session) -> &Ready {
    match session {
        Session::Ready(tabs) => tabs.active(),
        other => panic!("expected documents, got {other:?}"),
    }
}

fn active_mut(session: &mut Session) -> &mut Ready {
    match session {
        Session::Ready(tabs) => {
            let i = tabs.active;
            &mut tabs.docs[i]
        }
        other => panic!("expected documents, got {other:?}"),
    }
}

fn window(ready: Ready) -> Session {
    Session::Ready(Tabs::single(ready))
}

fn apply(session: &mut Session, message: Message) -> Vec<Action> {
    let mut done = Vec::new();
    for action in session.update(message) {
        if matches!(action, Action::Schedule) {
            if let Session::Ready(_) = session {
                let g = geometry(active(session));
                if let Some(work) = session.schedule_work(&g) {
                    done.push(work);
                }
            }
        }
        done.push(action);
    }
    done
}

fn go_to(index: u32) -> Message {
    Message::Nav { cmd: NavCmd::GoTo(PageNo::from_index(index)) }
}

fn fake_surface(scale: Scale) -> PageSurface {
    PageSurface { bitmap: Bitmap { width: 2, height: 2, rgba: vec![0; 16] }, scale }
}

fn printer(name: &str, is_default: bool) -> PrinterInfo {
    PrinterInfo { name: name.to_string(), is_default }
}

fn open_dialog() -> Session {
    let mut ready = sample_ready();
    ready.overflow_open = true;
    ready.print_status = Some("status antigo".to_string());
    let mut session = window(ready);
    apply(&mut session, Message::OpenPrintDialog);
    let printers = vec![printer("Laser", false), printer("Jato", true)];
    apply(&mut session, Message::PrintersLoaded { printers });
    session
}

fn dialog(session: &Session) -> &PrintDialog {
    active(session).print_dialog.as_ref().expect("dialog open")
}

fn custom(session: &mut Session, from: &str, to: &str) {
    apply(session, Message::PrintSetRangeMode { mode: RangeMode::Custom });
    apply(session, Message::PrintSetFromInput { text: from.to_string() });
    apply(session, Message::PrintSetToInput { text: to.to_string() });
}

fn rendered(session: &Session, page: PageNo, scale: Scale, surface: Option<PageSurface>) -> Message {
    let ready = active(session);
    Message::Rendered {
        page,
        scale,
        rotation: 0,
        doc_gen: ready.open_gen,
        render_gen: ready.render_gen,
        surface,
        geometry: geometry(ready),
    }
}

fn first_two() -> Selection {
    Selection { page: PageNo::first(), range: TextRange { start: 0, end: 2 } }
}

fn marked() -> Ready {
    let mut ready = sample_ready();
    ready.selection = Some(first_two());
    assert!(ready.annotate_selection(AnnotKind::Highlight));
    ready
}

#[test]
fn print_dialog_on_empty_is_noop() {
    let mut session = Session::empty(Theme::Dark);
    apply(&mut session, Message::OpenPrintDialog);
    assert!(matches!(session, Session::Empty(_)));
    apply(&mut session, Message::PrintSubmit);
    assert!(matches!(session, Session::Empty(_)));
    apply(&mut session, Message::ClosePrintDialog);
    assert!(matches!(session, Session::Empty(_)));
}

#[test]
fn open_dialog_resets_and_preselects_default_printer() {
    let session = open_dialog();
    assert!(!active(&session).overflow_open);
    assert!(active(&session).print_status.is_none());
    let dialog = dialog(&session);
    assert!(!dialog.printers_loading);
    assert_eq!(dialog.selected, Some(1));
    assert_eq!(dialog.copies, 1);
    assert_eq!(dialog.range_mode, RangeMode::All);
    assert!(!dialog.busy);
}

#[test]
fn printers_loaded_without_default_selects_first() {
    let mut session = window(sample_ready());
    let actions = apply(&mut session, Message::OpenPrintDialog);
    assert!(actions.iter().any(|a| matches!(a, Action::ListPrinters)));
    apply(&mut session, Message::PrintersLoaded { printers: vec![printer("Só", false)] });
    assert_eq!(dialog(&session).selected, Some(0));
    apply(&mut session, Message::PrintersLoaded { printers: vec![] });
    assert!(dialog(&session).selected.is_none());
    assert!(!dialog(&session).printers_loading);
}

#[test]
fn dialog_controls_update_state() {
    let mut session = open_dialog();
    apply(&mut session, Message::PrintSelectPrinter { index: 0 });
    assert_eq!(dialog(&session).selected, Some(0));
    apply(&mut session, Message::PrintSelectPrinter { index: 9 });
    assert_eq!(dialog(&session).selected, Some(0));
    custom(&mut session, "2", "1");
    assert_eq!(dialog(&session).range_mode, RangeMode::Custom);
    apply(&mut session, Message::PrintCopiesPlus);
    apply(&mut session, Message::PrintCopiesPlus);
    apply(&mut session, Message::PrintCopiesMinus);
    assert_eq!(dialog(&session).copies, 2);
    apply(&mut session, Message::PrintSetOrientation { orientation: PrintOrientation::Landscape });
    assert_eq!(dialog(&session).orientation, PrintOrientation::Landscape);
    apply(&mut session, Message::PrintPreviewNext);
    apply(&mut session, Message::PrintPreviewPrev);
    apply(&mut session, Message::ClosePrintDialog);
    assert!(active(&session).print_dialog.is_none());
}

#[test]
fn copies_clamp_between_1_and_max() {
    let mut session = open_dialog();
    apply(&mut session, Message::PrintCopiesMinus);
    assert_eq!(dialog(&session).copies, 1);
    for _ in 0..200 {
        apply(&mut session, Message::PrintCopiesPlus);
    }
    assert_eq!(dialog(&session).copies, MAX_COPIES);
}

#[test]
fn submit_with_invalid_range_reports_error_and_stays_open() {
    let mut session = open_dialog();
    custom(&mut session, "2", "1");
    apply(&mut session, Message::PrintSubmit);
    let d = dialog(&session);
    assert!(!d.busy);
    assert_eq!(d.error.as_deref(), Some("«De» maior que «Até»"));
}

#[test]
fn submit_without_printer_reports_error() {
    let mut session = window(sample_ready());
    apply(&mut session, Message::OpenPrintDialog);
    apply(&mut session, Message::PrintersLoaded { printers: vec![] });
    apply(&mut session, Message::PrintSubmit);
    let d = dialog(&session);
    assert!(!d.busy);
    assert_eq!(d.error.as_deref(), Some("nenhuma impressora selecionada"));
}

#[test]
fn submit_marks_busy_and_second_submit_is_ignored() {
    let mut session = open_dialog();
    apply(&mut session, Message::PrintSubmit);
    assert!(dialog(&session).busy);
    apply(&mut session, Message::PrintSetRangeMode { mode: RangeMode::Current });
    assert_eq!(dialog(&session).range_mode, RangeMode::All);
    assert!(dialog(&session).busy);
    assert!(apply(&mut session, Message::PrintSubmit).iter().all(|a| !matches!(a, Action::Spool { .. })));
}

#[test]
fn jobs_carry_what_was_chosen() {
    let mut session = open_dialog();
    custom(&mut session, "1", "2");
    apply(&mut session, Message::PrintCopiesPlus);
    let actions = apply(&mut session, Message::PrintSubmit);
    let job = actions.iter().find(|a| matches!(a, Action::Spool { .. })).unwrap();
    match job {
        Action::Spool { engine, selection, printer, title, doc_gen } => {
            assert_eq!((*engine, *doc_gen), (7, 0));
            assert_eq!(printer, "Jato");
            assert_eq!(title, "guia-folio");
            assert_eq!(selection.copies, 2);
            let all = PrintRange::FromTo { from: PageNo::from_index(0), to: PageNo::from_index(1) };
            assert_eq!(selection.range, all);
        }
        other => panic!("unexpected {other:?}"),
    }
}

#[test]
fn submitted_ok_closes_dialog_and_sets_status() {
    let mut session = open_dialog();
    apply(&mut session, Message::PrintSubmit);
    let doc_gen = active(&session).open_gen;
    apply(&mut session, Message::PrintSubmitted { doc_gen, printer: "Jato".to_string(), sent: Ok(7) });
    assert!(active(&session).print_dialog.is_none());
    assert_eq!(active(&session).print_status.as_deref(), Some("Enviado para Jato (job 7)"));
}

#[test]
fn submitted_err_keeps_dialog_open_with_error() {
    let mut session = open_dialog();
    apply(&mut session, Message::PrintSubmit);
    let doc_gen = active(&session).open_gen;
    let sent = Err("spool cheio".to_string());
    apply(&mut session, Message::PrintSubmitted { doc_gen, printer: "Jato".to_string(), sent });
    let d = dialog(&session);
    assert!(!d.busy);
    assert_eq!(d.error.as_deref(), Some("spool cheio"));
}

#[test]
fn submitted_with_stale_doc_gen_is_ignored() {
    let mut session = open_dialog();
    apply(&mut session, Message::PrintSubmit);
    let doc_gen = active(&session).open_gen.wrapping_add(1);
    let sent = Err("tarde demais".to_string());
    apply(&mut session, Message::PrintSubmitted { doc_gen, printer: "Jato".to_string(), sent });
    let d = dialog(&session);
    assert!(d.busy);
    assert!(d.error.is_none());
}

#[test]
fn open_pdf_hatch_keeps_dialog_open() {
    let mut session = open_dialog();
    apply(&mut session, Message::PrintOpenPdf);
    assert!(dialog(&session).busy);
    let doc_gen = active(&session).open_gen;
    apply(&mut session, Message::PrintPdfOpened { doc_gen, written: Ok("/tmp/x.pdf".to_string()) });
    let d = dialog(&session);
    assert!(!d.busy);
    assert!(d.error.is_none());
}

#[test]
fn failed_print_file_is_reported() {
    let mut session = open_dialog();
    apply(&mut session, Message::PrintOpenPdf);
    let doc_gen = active(&session).open_gen;
    apply(&mut session, Message::PrintPdfOpened { doc_gen, written: Err("disco cheio".to_string()) });
    assert_eq!(dialog(&session).error.as_deref(), Some("disco cheio"));
    assert!(!dialog(&session).busy);
}

#[test]
fn dialog_preview_pages_follow_range() {
    let mut session = open_dialog();
    let count = active(&session).page_count();
    let current = active(&session).visible;
    let pages = dialog(&session).preview_pages(count, current);
    assert_eq!(pages.len() as u32, count);
    apply(&mut session, Message::PrintSetRangeMode { mode: RangeMode::Current });
    let pages = dialog(&session).preview_pages(count, current);
    assert_eq!(pages, vec![current]);
    apply(&mut session, Message::PrintSetRangeMode { mode: RangeMode::Custom });
    apply(&mut session, Message::PrintSetFromInput { text: "999".to_string() });
    let pages = dialog(&session).preview_pages(count, current);
    assert_eq!(pages, vec![current]);
}

#[test]
fn close_while_busy_is_ignored() {
    let mut session = open_dialog();
    apply(&mut session, Message::PrintSubmit);
    apply(&mut session, Message::ClosePrintDialog);
    assert!(dialog(&session).busy);
}

#[test]
fn nop_keeps_dialog_open() {
    let mut session = open_dialog();
    apply(&mut session, Message::PrintNop);
    assert!(!dialog(&session).busy);
}

#[test]
fn nav_pages_preview_with_dialog_open() {
    let mut session = open_dialog();
    apply(&mut session, Message::Nav { cmd: NavCmd::Next });
    assert_eq!(dialog(&session).preview, 1);
    assert_eq!(active(&session).visible, PageNo::first());
    apply(&mut session, Message::Nav { cmd: NavCmd::Previous });
    assert_eq!(dialog(&session).preview, 0);
    apply(&mut session, Message::Nav { cmd: NavCmd::Last });
    assert_eq!(dialog(&session).preview, 1);
    apply(&mut session, Message::Nav { cmd: NavCmd::First });
    assert_eq!(dialog(&session).preview, 0);
    apply(&mut session, go_to(1));
    assert_eq!(dialog(&session).preview, 1);
    apply(&mut session, Message::ClosePrintDialog);
    apply(&mut session, Message::Nav { cmd: NavCmd::Next });
    assert_eq!(active(&session).visible, PageNo::from_index(1));
}

#[test]
fn rendered_inserts_preview_thumb_with_panel_closed() {
    let mut session = open_dialog();
    custom(&mut session, "2", "2");
    assert!(!active(&session).pages_open);
    let page = PageNo::from_index(1);
    active_mut(&mut session).pages.media[1] = Some(a4());
    let scale = thumb_scale(active(&session), page);
    assert_ne!(page_scale(active(&session), page), scale);
    let message = rendered(&session, page, scale, Some(fake_surface(scale)));
    apply(&mut session, message);
    let ready = active(&session);
    assert!(ready.thumb_surface(page, &geometry(ready)).is_some());
}

#[test]
fn evict_keeps_preview_thumb_and_drops_others() {
    let mut session = open_dialog();
    let ready = active_mut(&mut session);
    assert!(!ready.pages_open);
    let current = PageNo::from_index(0);
    let other = PageNo::from_index(1);
    ready.pages.media[1] = Some(a4());
    for page in [current, other] {
        let scale = thumb_scale(ready, page);
        ready.thumbs.insert(page, scale, fake_surface(scale));
    }
    let message = rendered(&session, current, Scale::from_factor(9000), None);
    apply(&mut session, message);
    let ready = active(&session);
    let g = geometry(ready);
    assert!(ready.thumb_surface(current, &g).is_some());
    assert!(ready.thumb_surface(other, &g).is_none());
}

#[test]
fn thumb_render_is_scheduled_for_preview_target() {
    let mut session = open_dialog();
    let ready = active_mut(&mut session);
    let visible = ready.visible;
    let scale = page_scale(ready, visible);
    ready.surfaces.insert(visible, 0, fake_surface(scale));
    ready.render_inflight.clear();
    let next = PageNo::from_index(1);
    ready.pages.set_page(next, a4(), text_page(1));
    ready.surfaces.insert(next, 0, fake_surface(scale));
    let target = PageNo::from_index(0);
    let thumb = thumb_scale(ready, target);
    let g = geometry(ready);
    assert_eq!(ready.print_preview_target(), Some(target));
    match ready.schedule(&g) {
        Some(Action::Render { page, scale, rotation, .. }) => {
            assert_eq!((page, scale, rotation), (target, thumb, 0));
        }
        other => panic!("unexpected {other:?}"),
    }
}

#[test]
fn save_without_annotations_sets_status_and_opens_nothing() {
    let mut session = window(sample_ready());
    let actions = apply(&mut session, Message::SaveCopyRequested);
    assert!(actions.iter().all(|a| !matches!(a, Action::AskSave { .. })));
    let ready = active(&session);
    assert_eq!(ready.save_status.as_deref(), Some("Nada para salvar — marque o texto primeiro."));
    assert!(!ready.save_warning);
}

#[test]
fn save_done_ok_records_copy_in_recents() {
    let ready = sample_ready();
    let dest = "/tmp/contrato (marcado).pdf".to_string();
    let doc_gen = ready.open_gen;
    let mut session = window(ready);
    let message =
        Message::SaveCopyDone { doc_gen, dest: dest.clone(), saved: Ok(()), stored: vec!["/tmp/a.pdf".to_string()] };
    let actions = apply(&mut session, message);
    let ready = active(&session);
    assert_eq!(ready.save_status.as_deref(), Some("Cópia salva em contrato (marcado).pdf"));
    assert_eq!(ready.recents.first(), Some(&dest));
    let stored = actions.iter().find_map(|a| match a {
        Action::SaveRecents { recents } => recents.first(),
        _ => None,
    });
    assert_eq!(stored, Some(&dest));
}

#[test]
fn save_done_err_sets_failure_status() {
    let ready = sample_ready();
    let doc_gen = ready.open_gen;
    let mut session = window(ready);
    let saved = Err("disco cheio".to_string());
    apply(&mut session, Message::SaveCopyDone { doc_gen, dest: "/tmp/x.pdf".to_string(), saved, stored: vec![] });
    assert_eq!(active(&session).save_status.as_deref(), Some("Falha ao salvar: disco cheio"));
}

#[test]
fn save_done_with_stale_doc_gen_is_ignored() {
    let ready = sample_ready();
    let doc_gen = ready.open_gen.wrapping_add(1);
    let mut session = window(ready);
    let dest = "/tmp/x.pdf".to_string();
    apply(&mut session, Message::SaveCopyDone { doc_gen, dest, saved: Ok(()), stored: vec![] });
    assert!(active(&session).save_status.is_none());
}

#[test]
fn copies_are_asked_for_by_name() {
    let mut session = window(marked());
    let actions = apply(&mut session, Message::SaveCopyRequested);
    let name = actions.iter().find_map(|a| match a {
        Action::AskSave { name, .. } => Some(name.as_str()),
        _ => None,
    });
    assert_eq!(name, Some("guia-folio (marcado).pdf"));
}

#[test]
fn signed_documents_warn_before_the_copy() {
    let mut ready = marked();
    ready.signatures.signatures.push(SignatureInfo {
        signer_name: None,
        common_name: None,
        status: SignatureStatus::IntactButUntrusted,
        status_detail: String::new(),
    });
    let mut session = window(ready);
    let actions = apply(&mut session, Message::SaveCopyRequested);
    assert!(actions.iter().all(|a| !matches!(a, Action::AskSave { .. })));
    assert!(active(&session).save_warning);
    apply(&mut session, Message::SaveCopyCancelled);
    assert!(!active(&session).save_warning);
    apply(&mut session, Message::SaveCopyRequested);
    let actions = apply(&mut session, Message::SaveCopyConfirmed);
    assert!(!active(&session).save_warning);
    assert!(actions.iter().any(|a| matches!(a, Action::AskSave { .. })));
}

#[test]
fn copies_never_replace_the_original() {
    let mut session = window(marked());
    let real = Some("/docs/guia-folio.pdf".to_string());
    let message = Message::SaveChosen {
        dest: "/docs/./guia-folio.pdf".to_string(),
        real_dest: real.clone(),
        real_source: real.clone(),
    };
    let actions = apply(&mut session, message);
    assert!(actions.iter().all(|a| !matches!(a, Action::SaveCopy { .. })));
    let message = Message::SaveChosen {
        dest: "/docs/copia.pdf".to_string(),
        real_dest: None,
        real_source: real,
    };
    let actions = apply(&mut session, message);
    let written = actions.iter().find_map(|a| match a {
        Action::SaveCopy { engine, marks, dest, .. } => Some((*engine, marks.len(), dest.as_str())),
        _ => None,
    });
    assert_eq!(written, Some((7, 1, "/docs/copia.pdf")));
}

#[test]
fn ranges_name_their_pages() {
    let p = PageNo::from_index;
    assert_eq!(resolve_range(PrintRange::All, 3), Some(vec![p(0), p(1), p(2)]));
    assert_eq!(resolve_range(PrintRange::Current(p(2)), 3), Some(vec![p(2)]));
    assert_eq!(resolve_range(PrintRange::Current(p(3)), 3), None);
    assert_eq!(resolve_range(PrintRange::FromTo { from: p(1), to: p(2) }, 3), Some(vec![p(1), p(2)]));
    assert_eq!(resolve_range(PrintRange::FromTo { from: p(2), to: p(1) }, 3), None);
    assert_eq!(parse_1based(" 3 ", 5), Ok(3));
    assert!(parse_1based("0", 5).is_err());
    assert!(parse_1based("6", 5).is_err());
    assert!(parse_1based("x", 5).is_err());
}

#[test]
fn default_printers_are_chosen_first() {
    assert_eq!(choose_printer(&vec![]), None);
    assert_eq!(choose_printer(&vec![printer("a", false), printer("b", true)]), Some(1));
    let fresh = PrintDialog::fresh(9, PageNo::from_index(3));
    assert!(fresh.selected_printer().is_none());
    assert!(fresh.printers_loading);
    assert_eq!(fresh.last_preview(9, PageNo::from_index(3)), 8);
}

#[test]
fn preview_target_comes_before_the_rows_of_the_panel() {
    let mut session = open_dialog();
    custom(&mut session, "2", "2");
    let ready = active_mut(&mut session);
    ready.pages_open = true;
    let scale = page_scale(ready, ready.visible);
    let next = PageNo::from_index(1);
    ready.pages.set_page(next, a4(), text_page(1));
    ready.page_data_inflight = PageSet::new();
    ready.render_inflight.clear();
    ready.surfaces.insert(ready.visible, 0, fake_surface(scale));
    ready.surfaces.insert(next, 0, fake_surface(scale));
    ready.outline_load_issued = true;
    let thumb = thumb_scale(ready, next);
    let g = geometry(ready);
    assert_eq!(ready.print_preview_target(), Some(next));
    match ready.schedule(&g) {
        Some(Action::Render { page, scale, rotation, .. }) => {
            assert_eq!((page, scale, rotation), (next, thumb, 0));
        }
        other => panic!("unexpected {other:?}"),
    }
}

#[test]
fn pages_are_printed_at_their_resolution() {
    assert_eq!(print_scale().factor(), 2778);
    assert_eq!((f64::from(PRINT_DPI) / f64::from(POINTS_PER_INCH) * 1000.0).round(), 2778.0);
    assert!(!is_turned(PrintOrientation::Auto, true));
    assert!(is_turned(PrintOrientation::Portrait, true));
    assert!(!is_turned(PrintOrientation::Portrait, false));
    assert!(is_turned(PrintOrientation::Landscape, false));
}
