//! A window and its documents.

use tsuro::browse::{EmptyState, FsEntry, Theme};
use tsuro::cache::{render_key, ThumbCache};
use tsuro::history::History;
use tsuro::messages::Message;
use tsuro::outline::{outline_active, outline_focus, outline_rows};
use tsuro::page::{
    Bitmap, Coord, Glyph, MediaBox, Outline, OutlineItem, PageNo, PageSurface, Quad, Scale, TextLayer, Viewport,
};
use tsuro::paths::{file_name, is_pdf, is_same_file, is_same_place, parent_of, suggested_marked_name};
use tsuro::positions::{find_position, record_position, DocPosition};
use tsuro::ready::Ready;
use tsuro::session::Session;
use tsuro::state::{
    needs_sign_warning, Action, Geometry, NavCmd, OpenError, OpenSource, OutlineKey, PdfAnalysis, SignatureInfo,
    SignatureStatus, ViewMode, Zoom, ZoomFactor,
};
use tsuro::tabs::Tabs;

fn c(value: f32) -> Coord {
    let bits = (value.to_bits() & 0x7fff_ffff) as i32;
    if value.is_sign_negative() {
        Coord(-bits)
    } else {
        Coord(bits)
    }
}

fn f(value: Coord) -> f32 {
    let magnitude = f32::from_bits(value.0.unsigned_abs());
    if value.0 < 0 {
        -magnitude
    } else {
        magnitude
    }
}

fn rect(left: f32, bottom: f32, right: f32, top: f32) -> Quad {
    Quad::from_rect(c(left), c(bottom), c(right), c(top))
}

fn text_page(page: u32) -> TextLayer {
    let plain = "Guia de leitura";
    let glyphs = plain
        .chars()
        .enumerate()
        .map(|(i, ch)| {
            let x = 72.0 + i as f32 * 8.0;
            Glyph { cluster: ch.to_string(), quad: rect(x, 700.0, x + 8.0, 710.0) }
        })
        .collect();
    TextLayer { page: PageNo::from_index(page), plain: plain.to_string(), glyphs }
}

fn a4() -> MediaBox {
    MediaBox { width: c(595.0), height: c(842.0) }
}

fn sample_pages(total: u32) -> Ready {
    let source = OpenSource::Path("/docs/guia-folio.pdf".to_string());
    let first = Ok((a4(), text_page(0)));
    Ready::from_parts(source, Ok((7, total)), first, Ok(PdfAnalysis { signatures: Vec::new() })).unwrap()
}

fn sample_ready() -> Ready {
    sample_pages(2)
}

fn factor(ready: &Ready, page: PageNo) -> f32 {
    let media = ready.rotated_media(page);
    let mut width = f(ready.viewport.width) - 8.0;
    if ready.pages_open {
        width -= 156.0 + 12.0;
    }
    if ready.signatures_open {
        width -= 220.0 + 12.0;
    }
    let width = (width - 48.0).max(1.0);
    let height = (f(ready.viewport.height) - 8.0).max(1.0);
    match ready.zoom {
        Zoom::Manual(z) => f(z.get()),
        Zoom::Width => width / f(media.width).max(1.0),
        Zoom::Page => (width / f(media.width).max(1.0)).min(height / f(media.height).max(1.0)),
    }
}

fn dpr(ready: &Ready) -> f32 {
    f(ready.render_scale).max(1.0)
}

fn page_scale(ready: &Ready, page: PageNo) -> Scale {
    Scale::from_factor((factor(ready, page) * dpr(ready) * 1000.0).round() as u32)
}

fn thumb_scale(ready: &Ready, page: PageNo) -> Scale {
    let fit = (120.0 / f(ready.media(page).width).max(1.0)).clamp(0.05, 2.0);
    Scale::from_factor((fit * dpr(ready) * 1000.0).round() as u32)
}

fn geometry(ready: &Ready) -> Geometry {
    let mut scales = Vec::new();
    let mut thumb_scales = Vec::new();
    let mut pixels = Vec::new();
    for i in 0..ready.page_count() {
        let page = PageNo::from_index(i);
        let scale = page_scale(ready, page);
        let media = ready.media(page);
        let by = scale.factor() as f32 / 1000.0;
        scales.push(scale);
        thumb_scales.push(thumb_scale(ready, page));
        pixels.push(((f(media.width) * by).round() as u64, (f(media.height) * by).round() as u64));
    }
    Geometry {
        scales,
        thumb_scales,
        pixels,
        blank: Scale::from_factor(65_000),
        window_first: 0,
        window_last: 0,
        thumb_first: (f(ready.pages_scroll_y) / 156.0).floor().max(0.0) as u32,
    }
}

fn active(session: &Session) -> &Ready {
    match session {
        Session::Ready(tabs) => tabs.active(),
        other => panic!("expected documents, got {other:?}"),
    }
}

fn active_mut(session: &mut Session) -> &mut Ready {
    match session {
        Session::Ready(tabs) => {
            let i = tabs.active;
            &mut tabs.docs[i]
        }
        other => panic!("expected documents, got {other:?}"),
    }
}

fn window(ready: Ready) -> Session {
    Session::Ready(Tabs::single(ready))
}

fn apply(session: &mut Session, message: Message) -> Vec<Action> {
    let mut done = Vec::new();
    for action in session.update(message) {
        if matches!(action, Action::Schedule) {
            if let Session::Ready(_) = session {
                let g = geometry(active(session));
                if let Some(work) = session.schedule_work(&g) {
                    done.push(work);
                }
            }
        }
        done.push(action);
    }
    done
}

fn go_to(index: u32) -> Message {
    Message::Nav { cmd: NavCmd::GoTo(PageNo::from_index(index)) }
}

fn fake_surface(scale: Scale) -> PageSurface {
    PageSurface { bitmap: Bitmap { width: 2, height: 2, rgba: vec![0; 16] }, scale }
}

fn manual(value: f32) -> Message {
    Message::SetZoom { zoom: Zoom::Manual(ZoomFactor::new(c(value))) }
}

fn zoom_factor(ready: &Ready) -> f32 {
    match ready.zoom {
        Zoom::Manual(z) => f(z.get()),
        other => panic!("expected a factor, got {other:?}"),
    }
}

fn begin(session: &mut Session, path: &str) {
    session.begin_open(OpenSource::Path(path.to_string()));
}

fn finish(session: &mut Session, result: Result<Ready, OpenError>) {
    session.finish_open(result, Vec::new(), None);
}

fn empty_with(recents: Vec<&str>) -> Session {
    let recents = recents.into_iter().map(|p| p.to_string()).collect();
    Session::Empty(EmptyState::start(recents, Theme::Dark, 0, c(1.0)))
}

fn loading_gen(session: &Session) -> u64 {
    match session {
        Session::Loading { gen, .. } => *gen,
        other => panic!("expected Loading, got {other:?}"),
    }
}

fn recents_of(session: &Session) -> Vec<String> {
    match session {
        Session::Empty(empty) => empty.recents.clone(),
        Session::Loading { recents, .. } => recents.clone(),
        Session::Failed { recents, .. } => recents.clone(),
        Session::Ready(tabs) => tabs.active().recents.clone(),
    }
}

fn tree() -> Outline {
    let leaf = |title: &str, page: u32| OutlineItem {
        title: title.to_string(),
        page: PageNo::from_index(page),
        children: vec![],
    };
    Outline {
        items: vec![
            OutlineItem {
                title: "A".to_string(),
                page: PageNo::first(),
                children: vec![leaf("A1", 2), leaf("A2", 5)],
            },
            leaf("B", 8),
        ],
    }
}

fn focus(ready: &Ready) -> Option<Vec<usize>> {
    let rows = outline_rows(&ready.outline, &ready.outline_collapsed);
    outline_focus(&rows, &ready.outline_cursor, ready.visible)
}

fn active_row(ready: &Ready) -> Option<Vec<usize>> {
    let rows = outline_rows(&ready.outline, &ready.outline_collapsed);
    outline_active(&rows, ready.visible)
}

#[test]
fn tabs_keep_page_and_zoom_per_document() {
    let mut session = window(sample_ready());
    apply(&mut session, go_to(1));
    apply(&mut session, manual(2.0));
    begin(&mut session, "/docs/guia-folio.pdf");
    finish(&mut session, Ok(sample_ready()));
    apply(&mut session, go_to(0));
    apply(&mut session, manual(1.0));
    {
        let Session::Ready(tabs) = &session else {
            panic!("expected Ready");
        };
        assert_eq!(tabs.len(), 2);
        assert_eq!(tabs.active_index(), 1);
        assert_eq!(zoom_factor(&tabs.docs()[0]), 2.0);
        assert_eq!(tabs.docs()[0].visible.index(), 1);
        assert_eq!(zoom_factor(&tabs.docs()[1]), 1.0);
        assert_eq!(tabs.docs()[1].visible.index(), 0);
    }
    apply(&mut session, Message::SelectTab { index: 0 });
    assert_eq!(active(&session).visible.index(), 1);
    assert_eq!(zoom_factor(active(&session)), 2.0);
    apply(&mut session, Message::CycleTab { step: 1 });
    assert_eq!(active(&session).visible.index(), 0);
    assert_eq!(zoom_factor(active(&session)), 1.0);
    apply(&mut session, Message::CloseTab { index: 1 });
    {
        let Session::Ready(tabs) = &session else {
            panic!("expected Ready");
        };
        assert_eq!(tabs.len(), 1);
        assert_eq!(tabs.active_index(), 0);
    }
    assert_eq!(active(&session).visible.index(), 1);
    assert_eq!(zoom_factor(active(&session)), 2.0);
    apply(&mut session, Message::CloseTabActive);
    assert!(matches!(session, Session::Empty(_)));
}

#[test]
fn failed_second_open_keeps_open_tabs() {
    let mut session = window(sample_ready());
    begin(&mut session, "/docs/guia-folio.pdf");
    finish(&mut session, Err(OpenError::Engine("motor quebrou".to_string())));
    let Session::Ready(tabs) = &session else {
        panic!("expected Ready");
    };
    assert_eq!(tabs.len(), 1);
    let error = tabs.open_error().clone().unwrap();
    assert!(error.contains("motor quebrou"));
    assert_eq!(
        error,
        "Falha ao abrir /docs/guia-folio.pdf: não foi possível abrir o PDF: motor quebrou"
    );
}

#[test]
fn strip_comes_and_goes_with_the_second_tab() {
    let mut session = window(sample_ready());
    begin(&mut session, "/docs/b.pdf");
    let opened = session.finish_open(Ok(sample_ready()), Vec::new(), None);
    assert!(opened.iter().any(|a| matches!(a, Action::Strip { shown: true })));
    let Session::Ready(tabs) = &mut session else {
        panic!("expected Ready");
    };
    tabs.set_height(c(690.0));
    assert!(tabs.docs().iter().all(|doc| f(doc.viewport.height) == 690.0));
    let closed = apply(&mut session, Message::CloseTab { index: 0 });
    assert!(closed.iter().any(|a| matches!(a, Action::Strip { shown: false })));
    assert!(closed.iter().any(|a| matches!(a, Action::CloseEngine { engine: 7 })));
}

#[test]
fn tabs_go_round_both_ways() {
    let mut session = window(sample_ready());
    for name in ["/b.pdf", "/c.pdf"] {
        begin(&mut session, name);
        finish(&mut session, Ok(sample_ready()));
    }
    let index = |s: &Session| match s {
        Session::Ready(tabs) => tabs.active_index(),
        _ => panic!("expected Ready"),
    };
    assert_eq!(index(&session), 2);
    apply(&mut session, Message::CycleTab { step: 1 });
    assert_eq!(index(&session), 0);
    apply(&mut session, Message::CycleTab { step: -1 });
    assert_eq!(index(&session), 2);
    apply(&mut session, Message::SelectTab { index: 9 });
    assert_eq!(index(&session), 2);
    apply(&mut session, Message::CloseTab { index: 9 });
    assert_eq!(index(&session), 2);
    let Session::Ready(tabs) = &session else {
        panic!("expected Ready");
    };
    let gens: Vec<u64> = tabs.docs().iter().map(|d| d.open_gen).collect();
    assert_eq!(gens, vec![0, 1, 2]);
    assert_eq!(tabs.max_gen(), 2);
}

#[test]
fn zoom_change_keeps_old_bitmap_until_rerender() {
    let mut ready = sample_ready();
    let page = ready.visible;
    let old_scale = page_scale(&ready, page);
    ready.surfaces.insert(page, 0, fake_surface(old_scale));
    assert!(ready.page_surface(page, &geometry(&ready)).is_some());
    ready.render_scale = c(2.0);
    let new_scale = page_scale(&ready, page);
    assert_ne!(new_scale, old_scale);
    assert!(ready.surfaces.get(page, new_scale, 0).is_none());
    assert!(ready.page_surface(page, &geometry(&ready)).is_some());
}

#[test]
fn empty_session_is_still_no_document() {
    assert!(matches!(Session::empty(Theme::Dark), Session::Empty(_)));
    assert!(matches!(
        Session::open_path("/tmp/doc.pdf".to_string(), Vec::new(), Theme::Dark),
        Session::Loading { .. }
    ));
}

#[test]
fn windows_ask_for_what_they_need_when_they_open() {
    let empty = Session::empty(Theme::Dark).boot();
    assert!(matches!(empty[0], Action::LoadRecents));
    assert!(matches!(empty[1], Action::List { path: None }));
    let direct = Session::open_path("/tmp/doc.pdf".to_string(), Vec::new(), Theme::Dark).boot();
    match &direct[0] {
        Action::Open { source, gen } => {
            assert_eq!(source.path(), "/tmp/doc.pdf");
            assert_eq!(*gen, 1);
        }
        other => panic!("unexpected {other:?}"),
    }
}

#[test]
fn listing_error_stays_empty() {
    let mut session = Session::empty(Theme::Dark);
    apply(&mut session, Message::ListingReady { folder: None, listed: Err("sem permissão".to_string()) });
    match &session {
        Session::Empty(empty) => {
            assert_eq!(empty.listing_error.as_deref(), Some("sem permissão"));
            assert!(empty.listing.is_empty());
        }
        other => panic!("listing error left Empty, got {other:?}"),
    }
}

#[test]
fn browse_into_folder_and_back() {
    let folder = "/tmp/tsuro-docs".to_string();
    let mut session = Session::empty(Theme::Dark);
    let entry = FsEntry { path: folder.clone(), name: "docs".to_string(), is_dir: true };
    apply(&mut session, Message::ListingReady { folder: None, listed: Ok(vec![entry]) });
    apply(&mut session, Message::BrowseTo { folder: Some(folder.clone()) });
    match &session {
        Session::Empty(empty) => {
            assert_eq!(empty.cwd.as_deref(), Some("/tmp/tsuro-docs"));
            assert_eq!(empty.path_label("topo"), "/tmp/tsuro-docs");
            assert_eq!(empty.parent(), Some(Some("/tmp".to_string())));
        }
        other => panic!("expected Empty after BrowseTo, got {other:?}"),
    }
    let file = FsEntry { path: "/tmp/tsuro-docs/a.pdf".to_string(), name: "a.pdf".to_string(), is_dir: false };
    apply(&mut session, Message::ListingReady { folder: Some(folder), listed: Ok(vec![file]) });
    match &session {
        Session::Empty(empty) => {
            assert_eq!(empty.listing.len(), 1);
            assert!(!empty.listing[0].is_dir);
        }
        other => panic!("expected listing, got {other:?}"),
    }
    apply(&mut session, Message::ListingReady { folder: Some("/tmp".to_string()), listed: Ok(Vec::new()) });
    match &session {
        Session::Empty(empty) => assert_eq!(empty.listing.len(), 1),
        other => panic!("expected listing, got {other:?}"),
    }
    apply(&mut session, Message::BrowseTo { folder: None });
    match &session {
        Session::Empty(empty) => {
            assert!(empty.cwd.is_none());
            assert_eq!(empty.path_label("topo"), "topo");
            assert_eq!(empty.parent(), None);
        }
        other => panic!("expected roots, got {other:?}"),
    }
}

#[test]
fn open_path_skips_browser() {
    let session = Session::open_path("/tmp/direct.pdf".to_string(), Vec::new(), Theme::Dark);
    assert!(matches!(session, Session::Loading { .. }));
    assert!(!matches!(session, Session::Empty(_)));
}

#[test]
fn remember_recent_on_successful_open_and_close() {
    let mut session = empty_with(vec!["/tmp/older.pdf"]);
    begin(&mut session, "/tmp/remembered.pdf");
    finish(&mut session, Err(OpenError::Engine("sem motor no teste".to_string())));
    assert!(matches!(session, Session::Failed { .. }));
    assert!(recents_of(&session).contains(&"/tmp/older.pdf".to_string()));

    let mut session = empty_with(vec!["/tmp/older.pdf"]);
    begin(&mut session, "/docs/guia-folio.pdf");
    finish(&mut session, Ok(sample_ready()));
    let ready = active(&session);
    assert!(!ready.signatures_open);
    assert!(!ready.pages_open);
    assert_eq!(ready.recents.first().map(|p| p.as_str()), Some(ready.source.path()));
    assert!(ready.recents.contains(&"/tmp/older.pdf".to_string()));
    apply(&mut session, Message::Close);
    assert!(matches!(session, Session::Empty(_)));
    assert_eq!(recents_of(&session)[0], "/docs/guia-folio.pdf");
}

#[test]
fn close_from_failed_returns_to_empty() {
    let mut session = empty_with(vec![]);
    begin(&mut session, "/tmp/falha.pdf");
    finish(&mut session, Err(OpenError::Engine("motor quebrou".to_string())));
    assert!(matches!(session, Session::Failed { .. }));
    apply(&mut session, Message::Close);
    assert!(matches!(session, Session::Empty(_)));
}

#[test]
fn dead_recent_drops_after_io_failure() {
    let mut session = empty_with(vec!["/tmp/tsuro-missing-recent.pdf", "/tmp/keep.pdf"]);
    begin(&mut session, "/tmp/tsuro-missing-recent.pdf");
    finish(&mut session, Err(OpenError::Io("arquivo em falta".to_string())));
    match &session {
        Session::Failed { recents, message, .. } => {
            assert!(message.contains("arquivo em falta"));
            assert_eq!(message, "não foi possível ler o arquivo: arquivo em falta");
            assert!(!recents.contains(&"/tmp/tsuro-missing-recent.pdf".to_string()));
            assert!(recents.contains(&"/tmp/keep.pdf".to_string()));
        }
        other => panic!("expected Failed, got {other:?}"),
    }
}

#[test]
fn failures_have_their_words() {
    assert_eq!(OpenError::Sign("x".to_string()).message(), "assinaturas: x");
    let parts = |opened, first, signed| {
        Ready::from_parts(OpenSource::Path("/a.pdf".to_string()), opened, first, signed).map(|r| r.page_count())
    };
    let page = || Ok((a4(), text_page(0)));
    let signed = || Ok(PdfAnalysis { signatures: Vec::new() });
    assert!(matches!(parts(Err("e".to_string()), page(), signed()), Err(OpenError::Engine(_))));
    assert!(matches!(parts(Ok((1, 1)), Err("e".to_string()), signed()), Err(OpenError::Engine(_))));
    assert!(matches!(parts(Ok((1, 1)), page(), Err("e".to_string())), Err(OpenError::Sign(_))));
    assert!(matches!(parts(Ok((1, 0)), Err("e".to_string()), signed()), Ok(0)));
    assert!(matches!(parts(Ok((1, 4)), page(), signed()), Ok(4)));
}

#[test]
fn ready_panels_start_closed_and_toggle_independently() {
    let mut session = window(sample_ready());
    assert!(!active(&session).signatures_open);
    assert!(!active(&session).pages_open);
    apply(&mut session, Message::ToggleSignatures);
    assert!(active(&session).signatures_open);
    assert!(!active(&session).pages_open);
    apply(&mut session, Message::TogglePages);
    assert!(active(&session).signatures_open);
    assert!(active(&session).pages_open);
    apply(&mut session, Message::ToggleSignatures);
    assert!(!active(&session).signatures_open);
    assert!(active(&session).pages_open);
}

#[test]
fn set_page_from_list_changes_visible() {
    let mut session = window(sample_ready());
    apply(&mut session, go_to(1));
    assert_eq!(active(&session).visible.index(), 1);
}

#[test]
fn view_mode_switch_preserves_visible_and_zoom() {
    let ready = sample_ready();
    assert_eq!(ready.view_mode, ViewMode::Single);
    let mut session = window(ready);
    apply(&mut session, go_to(1));
    apply(&mut session, Message::SetViewMode { view_mode: ViewMode::Continuous });
    assert_eq!(active(&session).view_mode, ViewMode::Continuous);
    assert_eq!(active(&session).visible.index(), 1);
    assert!(matches!(active(&session).zoom, Zoom::Width));
    apply(&mut session, Message::SetViewMode { view_mode: ViewMode::Single });
    assert_eq!(active(&session).view_mode, ViewMode::Single);
}

#[test]
fn doc_scrolled_derives_visible_in_continuous() {
    let mut session = window(sample_pages(4));
    apply(&mut session, Message::DocScrolled { y: c(3138.0), page: PageNo::from_index(2) });
    assert_eq!(active(&session).visible.index(), 0);
    apply(&mut session, Message::SetViewMode { view_mode: ViewMode::Continuous });
    apply(&mut session, Message::DocScrolled { y: c(3138.0), page: PageNo::from_index(2) });
    let ready = active(&session);
    assert_eq!(ready.visible.index(), 2);
    assert_eq!(ready.page_input(), (ready.visible.index() + 1).to_string());
    assert_eq!(f(ready.doc_scroll_y), 3138.0);
}

#[test]
fn doc_window_contains_visible_and_clamps() {
    let mut session = window(sample_pages(10));
    apply(&mut session, Message::SetViewMode { view_mode: ViewMode::Continuous });
    apply(&mut session, Message::DocScrolled { y: c(0.0), page: PageNo::first() });
    let mut g = geometry(active(&session));
    let (start, end) = active(&session).doc_window(&g);
    assert!(start <= active(&session).visible.index());
    assert!(active(&session).visible.index() < end.max(1));
    assert!(end <= active(&session).page_count());
    assert_eq!((start, end), (0, 3));
    let ready = active_mut(&mut session);
    for i in 0..10 {
        let page = PageNo::from_index(i);
        ready.surfaces.insert(page, 0, fake_surface(page_scale(ready, page)));
    }
    ready.evict_unused(&g);
    for i in 0..10 {
        let kept = ready.surfaces.fallback_for_page(PageNo::from_index(i)).is_some();
        assert_eq!(kept, i < end);
    }
    g.window_first = 5;
    g.window_last = 9;
    assert_eq!(active(&session).doc_window(&g), (3, 10));
}

#[test]
fn history_back_forward_and_truncation() {
    let mut session = window(sample_ready());
    let first = PageNo::first();
    let last = PageNo::from_index(1);
    let state = |s: &Session| (active(s).history.pages.len(), active(s).history.pos);
    assert_eq!(state(&session), (1, 0));
    apply(&mut session, go_to(1));
    assert_eq!(active(&session).visible, last);
    assert_eq!(state(&session), (2, 1));
    apply(&mut session, go_to(0));
    assert_eq!(state(&session), (3, 2));
    apply(&mut session, go_to(0));
    assert_eq!(state(&session), (3, 2));
    apply(&mut session, Message::HistoryBack);
    assert_eq!(active(&session).visible, last);
    apply(&mut session, go_to(0));
    assert_eq!(state(&session), (3, 2));
    apply(&mut session, Message::HistoryBack);
    apply(&mut session, Message::HistoryBack);
    assert_eq!(active(&session).visible, first);
    assert_eq!(state(&session), (3, 0));
    apply(&mut session, Message::HistoryBack);
    assert_eq!(active(&session).visible, first);
    apply(&mut session, Message::HistoryForward);
    assert_eq!(active(&session).visible, last);
    apply(&mut session, Message::HistoryForward);
    assert_eq!(active(&session).visible, first);
    apply(&mut session, Message::HistoryForward);
    assert_eq!(active(&session).visible, first);
    let ready = active(&session);
    assert!(!ready.can_history_back() || ready.history.pos > 0);
    assert_eq!(ready.can_history_forward(), ready.history.can_forward());
}

#[test]
fn history_stack_walks_visits_without_document() {
    let (p1, p5, p3) = (PageNo::first(), PageNo::from_index(4), PageNo::from_index(2));
    let mut history = History::new(p1);
    assert_eq!(history.current(), p1);
    history.visit(p5);
    history.visit(p3);
    assert_eq!(history.pages, vec![p1, p5, p3]);
    assert_eq!(history.pos, 2);
    assert_eq!(history.step(false), Some(p5));
    assert_eq!(history.current(), p5);
    assert_eq!(history.step(false), Some(p1));
    assert_eq!(history.current(), p1);
    assert_eq!(history.step(false), None);
    assert_eq!(history.current(), p1);
    assert_eq!(history.step(true), Some(p5));
    history.visit(p3);
    assert_eq!(history.pages, vec![p1, p5, p3]);
    assert!(!history.can_forward());
    history.visit(p3);
    assert_eq!(history.pages.len(), 3);
    assert_eq!(history.len(), 3);
    let p9 = PageNo::from_index(8);
    history.visit(p9);
    assert_eq!(history.step(false), Some(p3));
    assert_eq!(history.step(true), Some(p9));
    history.reset(p5);
    assert_eq!(history.pages, vec![p5]);
    assert!(!history.can_back());
    assert!(!history.can_forward());
    assert_eq!(history.step(false), None);
}

#[test]
fn search_jump_then_back_returns_to_reading_page() {
    let mut ready = sample_ready();
    let hit_page = PageNo::from_index(1);
    ready.pages.text[1] = Some(TextLayer {
        page: hit_page,
        plain: "cláusula".to_string(),
        glyphs: vec![Glyph { cluster: "cláusula".to_string(), quad: rect(0.0, 0.0, 10.0, 10.0) }],
    });
    let mut session = window(ready);
    apply(&mut session, Message::SearchChanged { query: "cláusula".to_string() });
    assert_eq!(active(&session).visible, hit_page);
    apply(&mut session, Message::HistoryBack);
    assert_eq!(active(&session).visible, PageNo::first());
    apply(&mut session, Message::HistoryForward);
    assert_eq!(active(&session).visible, hit_page);
}

#[test]
fn navigate_persists_position_for_real_file() {
    let mut session = window(sample_ready());
    let actions = apply(&mut session, go_to(1));
    let stored: Vec<u32> = actions
        .iter()
        .filter_map(|a| match a {
            Action::SavePosition { page, .. } => Some(*page),
            _ => None,
        })
        .collect();
    assert_eq!(stored, vec![1]);
    let again = apply(&mut session, go_to(1));
    assert!(!again.iter().any(|a| matches!(a, Action::SavePosition { .. })));
}

#[test]
fn restore_position_applies_stored_page_and_resets_history() {
    let mut ready = sample_ready();
    let entries = record_position(
        Vec::new(),
        "/docs/guia-folio.pdf".to_string(),
        DocPosition { page: 1, zoom: Zoom::Page, mode: ViewMode::Continuous, size: 5, mtime: 6 },
    );
    let found = find_position(&entries, ready.source.path(), Some((5, 6)));
    assert!(ready.restore_position(found));
    assert_eq!(ready.visible.index(), 1);
    assert!(matches!(ready.zoom, Zoom::Page));
    assert_eq!(ready.view_mode, ViewMode::Continuous);
    assert_eq!(ready.history.pages, vec![ready.visible]);
    assert_eq!(ready.history.pos, 0);
    let beyond = DocPosition { page: 99, zoom: Zoom::Width, mode: ViewMode::Single, size: 5, mtime: 6 };
    assert!(!ready.restore_position(Some(beyond)));
    assert_eq!(ready.visible.index(), 1);
}

#[test]
fn reopen_restores_page_zoom_and_mode_after_close() {
    let mut session = window(sample_ready());
    let target = PageNo::from_index(1);
    let mut stored = None;
    for message in [
        go_to(1),
        Message::SetZoom { zoom: Zoom::Page },
        Message::SetViewMode { view_mode: ViewMode::Continuous },
        Message::Close,
    ] {
        for action in apply(&mut session, message) {
            if let Action::SavePosition { page, zoom, mode, .. } = action {
                stored = Some(DocPosition { page, zoom, mode, size: 1, mtime: 1 });
            }
        }
    }
    begin(&mut session, "/docs/guia-folio.pdf");
    let actions = session.finish_open(Ok(sample_ready()), Vec::new(), stored);
    assert!(actions.iter().any(|a| matches!(a, Action::Align { .. })));
    session.align_scroll(c(1234.0));
    let ready = active(&session);
    assert_eq!(ready.visible, target);
    assert!(matches!(ready.zoom, Zoom::Page));
    assert_eq!(ready.view_mode, ViewMode::Continuous);
    assert_eq!(f(ready.doc_scroll_y), 1234.0);
    assert_eq!(ready.history.pages, vec![target]);
    assert_eq!(ready.history.pos, 0);
    assert!(!ready.can_history_back());
    assert_eq!(ready.page_input(), "2");
}

#[test]
fn outline_rows_flatten_collapse_and_active() {
    let mut ready = sample_pages(9);
    assert!(outline_rows(&ready.outline, &ready.outline_collapsed).is_empty());
    assert!(active_row(&ready).is_none());
    ready.outline = Some(tree());
    {
        let rows = outline_rows(&ready.outline, &ready.outline_collapsed);
        assert_eq!(rows.len(), 4);
        assert_eq!(rows[0].path, vec![0]);
        assert_eq!(rows[1].path, vec![0, 0]);
        assert_eq!((rows[0].depth, rows[1].depth), (0, 1));
        assert_eq!(rows[2].title, "A2");
        assert!(rows[0].has_children);
        assert!(!rows[1].has_children);
    }
    ready.outline_fold(vec![0]);
    assert_eq!(outline_rows(&ready.outline, &ready.outline_collapsed).len(), 2);
    ready.outline_fold(vec![0]);
    ready.visible = PageNo::from_index(3);
    assert_eq!(active_row(&ready), Some(vec![0, 0]));
    ready.visible = PageNo::from_index(8);
    assert_eq!(active_row(&ready), Some(vec![1]));
    ready.visible = PageNo::first();
    assert_eq!(active_row(&ready), Some(vec![0]));
}

#[test]
fn outline_keyboard_walks_tree_and_jumps() {
    let mut session = window(sample_ready());
    let doc_gen = active(&session).open_gen;
    apply(&mut session, Message::OutlineLoaded { doc_gen, outline: Some(tree()) });
    apply(&mut session, Message::OutlineKey { key: OutlineKey::Next });
    apply(&mut session, Message::OutlineKey { key: OutlineKey::Activate });
    assert!(active(&session).outline_cursor.is_none());
    assert_eq!(active(&session).visible, PageNo::first());
    apply(&mut session, Message::OutlineTab { shown: true });
    assert_eq!(focus(active(&session)), Some(vec![0]));
    let actions = apply(&mut session, Message::OutlineKey { key: OutlineKey::Next });
    assert!(actions.iter().any(|a| matches!(a, Action::ScrollOutline { row: 1 })));
    assert_eq!(focus(active(&session)), Some(vec![0, 0]));
    assert_eq!(active(&session).visible, PageNo::first());
    let history = active(&session).history.len();
    apply(&mut session, Message::OutlineKey { key: OutlineKey::Activate });
    assert_eq!(active(&session).visible, PageNo::from_index(1));
    assert_eq!(active(&session).history.len(), history + 1);
    for _ in 0..4 {
        apply(&mut session, Message::OutlineKey { key: OutlineKey::Next });
    }
    assert_eq!(focus(active(&session)), Some(vec![1]));
    for _ in 0..4 {
        apply(&mut session, Message::OutlineKey { key: OutlineKey::Prev });
    }
    assert_eq!(focus(active(&session)), Some(vec![0]));
    apply(&mut session, Message::OutlineKey { key: OutlineKey::Next });
    apply(&mut session, Message::OutlineFold { path: vec![0] });
    let ready = active(&session);
    assert_eq!(outline_rows(&ready.outline, &ready.outline_collapsed).len(), 2);
    assert_eq!(focus(ready), Some(vec![0]));
}

#[test]
fn outline_tab_jump_fold_and_load() {
    let mut session = window(sample_ready());
    apply(&mut session, Message::OutlineTab { shown: true });
    assert!(!active(&session).outline_open);
    let doc_gen = active(&session).open_gen;
    apply(&mut session, Message::OutlineLoaded { doc_gen, outline: Some(tree()) });
    apply(&mut session, Message::OutlineTab { shown: true });
    apply(&mut session, Message::OutlineJump { page: PageNo::from_index(9999) });
    assert!(active(&session).outline_open);
    assert_eq!(active(&session).visible.index(), 1);
    assert_eq!(active_row(active(&session)), Some(vec![0]));
    apply(&mut session, Message::OutlineFold { path: vec![0] });
    assert!(active(&session).outline_collapsed.contains(&vec![0]));
    let rows = outline_rows(&active(&session).outline, &active(&session).outline_collapsed).len();
    assert_eq!(rows, 2);
    apply(&mut session, Message::OutlineFold { path: vec![0] });
    assert!(active(&session).outline_collapsed.is_empty());
}

#[test]
fn close_and_reopen_do_not_inherit_panel_flags() {
    let mut session = window(sample_ready());
    apply(&mut session, Message::ToggleSignatures);
    apply(&mut session, Message::TogglePages);
    apply(&mut session, Message::Close);
    assert!(matches!(session, Session::Empty(_)));
    begin(&mut session, "/docs/guia-folio.pdf");
    finish(&mut session, Ok(sample_ready()));
    assert!(!active(&session).signatures_open);
    assert!(!active(&session).pages_open);
}

#[test]
fn finish_open_merges_disk_recents_when_memory_is_empty() {
    let mut session = empty_with(vec![]);
    begin(&mut session, "/tmp/new.pdf");
    session.finish_open(
        Err(OpenError::Engine("sem motor no teste".to_string())),
        vec!["/tmp/disk.pdf".to_string()],
        None,
    );
    assert!(matches!(session, Session::Failed { .. }));
    assert!(recents_of(&session).contains(&"/tmp/disk.pdf".to_string()));
}

#[test]
fn recents_ready_fills_loading_session() {
    let mut session = Session::open_path("/tmp/direct.pdf".to_string(), Vec::new(), Theme::Dark);
    apply(&mut session, Message::RecentsReady { stored: vec!["/tmp/old.pdf".to_string()] });
    match &session {
        Session::Loading { recents, .. } => assert_eq!(*recents, vec!["/tmp/old.pdf".to_string()]),
        other => panic!("expected Loading, got {other:?}"),
    }
}

#[test]
fn loading_tick_advances_and_wraps_the_bar_phase() {
    let mut session = Session::open_path("/tmp/direct.pdf".to_string(), Vec::new(), Theme::Dark);
    apply(&mut session, Message::LoadingTick);
    apply(&mut session, Message::LoadingTick);
    match &mut session {
        Session::Loading { phase, .. } => {
            assert_eq!(*phase, 2);
            *phase = u16::MAX;
        }
        other => panic!("expected Loading, got {other:?}"),
    }
    apply(&mut session, Message::LoadingTick);
    match &session {
        Session::Loading { phase, .. } => assert_eq!(*phase, 0),
        other => panic!("expected Loading, got {other:?}"),
    }
}

fn opened(gen: u64, result: Result<Ready, OpenError>) -> Message {
    Message::Opened { gen, result, stored: Vec::new(), left_at: None }
}

#[test]
fn stale_opened_after_close_is_ignored() {
    let mut session = Session::empty(Theme::Dark);
    begin(&mut session, "/tmp/a.pdf");
    let gen = loading_gen(&session);
    apply(&mut session, Message::Close);
    assert!(matches!(session, Session::Empty(_)));
    apply(&mut session, opened(gen, Err(OpenError::Engine("atrasado".to_string()))));
    assert!(matches!(session, Session::Empty(_)));
    let actions = apply(&mut session, opened(gen, Ok(sample_ready())));
    assert!(matches!(session, Session::Empty(_)));
    assert!(matches!(actions[0], Action::CloseEngine { engine: 7 }));
}

#[test]
fn stale_opened_does_not_replace_newer_open() {
    let mut session = Session::empty(Theme::Dark);
    begin(&mut session, "/tmp/a.pdf");
    let gen_a = loading_gen(&session);
    begin(&mut session, "/tmp/b.pdf");
    apply(&mut session, opened(gen_a, Err(OpenError::Engine("A atrasado".to_string()))));
    match &session {
        Session::Loading { source, .. } => assert_eq!(source.path(), "/tmp/b.pdf"),
        other => panic!("the older document replaced the newer, got {other:?}"),
    }
}

#[test]
fn open_recent_ignores_non_pdf() {
    let mut session = Session::empty(Theme::Dark);
    apply(&mut session, Message::OpenRecent { file: "/tmp/note.txt".to_string() });
    assert!(matches!(session, Session::Empty(_)));
    apply(&mut session, Message::FileDropped { file: "/tmp/NOTE.PDF".to_string() });
    match &session {
        Session::Loading { source, .. } => assert!(matches!(source, OpenSource::Dropped(_))),
        other => panic!("expected Loading, got {other:?}"),
    }
    assert!(is_pdf("a.pdf") && !is_pdf(".pdf") && !is_pdf("pdf") && !is_pdf("a.pdf.txt"));
}

fn rendered(session: &Session, page: PageNo, scale: Scale, gen: u64, surface: Option<PageSurface>) -> Message {
    let ready = active(session);
    Message::Rendered {
        page,
        scale,
        rotation: 0,
        doc_gen: ready.open_gen,
        render_gen: gen,
        surface,
        geometry: geometry(ready),
    }
}

#[test]
fn failed_render_is_not_cached() {
    let mut session = window(sample_ready());
    let page = active(&session).visible;
    let scale = page_scale(active(&session), page);
    let gen = active(&session).render_gen;
    let message = rendered(&session, page, scale, gen, None);
    apply(&mut session, message);
    let ready = active(&session);
    assert!(ready.surfaces.get(page, scale, 0).is_none());
    assert!(ready.visible_render_failed(&geometry(ready)));
    let viewport = Viewport { width: c(960.0), height: c(720.0) };
    apply(&mut session, Message::SetViewport { viewport });
    let ready = active(&session);
    assert!(ready.surfaces.get(page, scale, 0).is_none());
    assert!(ready.visible_render_failed(&geometry(ready)));
}

#[test]
fn page_submit_clamps_and_restores_invalid() {
    let mut ready = sample_ready();
    ready.page_input = "9999".to_string();
    ready.submit_page_input();
    assert_eq!(ready.visible.index(), 1);
    assert_eq!(ready.page_input(), "2");
    ready.page_input = "abc".to_string();
    ready.submit_page_input();
    assert_eq!(ready.page_input(), "2");
    ready.page_input = "0".to_string();
    ready.submit_page_input();
    assert_eq!(ready.visible.index(), 0);
    assert_eq!(ready.page_input(), "1");
    ready.page_input = "  ".to_string();
    ready.submit_page_input();
    assert_eq!(ready.page_input(), "1");
}

#[test]
fn page_submit_valid_and_external_nav_sync() {
    let mut ready = sample_pages(3);
    ready.page_input = "2".to_string();
    ready.submit_page_input();
    assert_eq!(ready.visible.index(), 1);
    assert_eq!(ready.page_input(), "2");
    ready.navigate_to(PageNo::from_index(0));
    assert_eq!(ready.page_input(), "1");
}

#[test]
fn documents_without_pages_stay_put() {
    let mut session = window(sample_pages(0));
    for cmd in [NavCmd::Next, NavCmd::Last, NavCmd::Previous, NavCmd::First] {
        apply(&mut session, Message::Nav { cmd });
    }
    apply(&mut session, Message::PageInput { text: "3".to_string() });
    apply(&mut session, Message::PageSubmit);
    assert_eq!(active(&session).visible, PageNo::first());
    assert_eq!(active(&session).page_input(), "");
}

#[test]
fn rotate_view_cycles_quarters_and_resets_on_open() {
    let mut session = window(sample_ready());
    assert_eq!(active(&session).view_rotation, 0);
    for expected in [1, 2, 3, 0] {
        apply(&mut session, Message::RotateView);
        assert_eq!(active(&session).view_rotation, expected);
    }
    apply(&mut session, Message::RotateView);
    begin(&mut session, "/docs/guia-folio.pdf");
    let Session::Ready(tabs) = &session else {
        panic!("the document stays while another is read");
    };
    assert_eq!(tabs.active().view_rotation, 1);
    assert_eq!(tabs.len(), 1);
    finish(&mut session, Ok(sample_ready()));
    let Session::Ready(tabs) = &session else {
        panic!("expected Ready");
    };
    assert_eq!(tabs.len(), 2);
    assert_eq!(tabs.active().view_rotation, 0);
    assert_eq!(tabs.docs()[0].view_rotation, 1);
}

#[test]
fn rotated_pages_lie_on_their_side() {
    let mut ready = sample_ready();
    let page = PageNo::first();
    assert_eq!(f(ready.rotated_media(page).width), 595.0);
    ready.view_rotation = 1;
    assert_eq!(f(ready.rotated_media(page).width), 842.0);
    ready.view_rotation = 2;
    assert_eq!(f(ready.rotated_media(page).height), 842.0);
    assert_eq!(f(ready.media(PageNo::from_index(1)).width), 1.0);
}

#[test]
fn render_key_separates_rotations() {
    let page = PageNo::first();
    let scale = Scale::from_factor(1000);
    assert_ne!(render_key(page, scale, 0), render_key(page, scale, 1));
    assert_eq!(render_key(page, scale, 5), render_key(page, scale, 1));
}

#[test]
fn stale_render_gen_is_ignored() {
    let mut session = window(sample_ready());
    let page = active(&session).visible;
    let scale = page_scale(active(&session), page);
    let message = rendered(&session, page, scale, 0, Some(fake_surface(scale)));
    apply(&mut session, message);
    assert!(active(&session).surfaces.get(page, scale, 0).is_none());
}

#[test]
fn render_of_the_visible_page_is_kept() {
    let mut session = window(sample_ready());
    let page = active(&session).visible;
    let scale = page_scale(active(&session), page);
    let gen = active(&session).render_gen;
    let message = rendered(&session, page, scale, gen, Some(fake_surface(scale)));
    apply(&mut session, message);
    assert!(active(&session).surfaces.get(page, scale, 0).is_some());
    let wrong = Scale::from_factor(9);
    let message = rendered(&session, page, wrong, gen, Some(fake_surface(wrong)));
    apply(&mut session, message);
    assert!(active(&session).surfaces.get(page, scale, 0).is_some());
}

#[test]
fn cache_replaces_scale_and_shows_stale_until_exact() {
    let mut ready = sample_ready();
    let page = ready.visible;
    let old_scale = Scale::from_factor(1000);
    let new_scale = Scale::from_factor(2000);
    ready.surfaces.insert(page, 0, fake_surface(old_scale));
    assert!(ready.surfaces.get(page, old_scale, 0).is_some());
    assert!(ready.page_surface(page, &geometry(&ready)).is_some());
    ready.surfaces.insert(page, 0, fake_surface(new_scale));
    assert!(ready.surfaces.get(page, new_scale, 0).is_some());
    assert!(ready.surfaces.get(page, old_scale, 0).is_none());
    assert!(ready.surfaces.get(page, new_scale, 1).is_none());
}

#[test]
fn evict_retains_visible_neighbors() {
    let mut ready = sample_pages(5);
    let s0 = Scale::from_factor(1000);
    ready.visible = PageNo::from_index(1);
    for i in 0..4 {
        ready.surfaces.insert(PageNo::from_index(i), 0, fake_surface(s0));
    }
    let g = geometry(&ready);
    ready.evict_unused(&g);
    assert!(ready.surfaces.get(PageNo::from_index(0), s0, 0).is_some());
    assert!(ready.surfaces.get(PageNo::from_index(1), s0, 0).is_some());
    assert!(ready.surfaces.get(PageNo::from_index(2), s0, 0).is_some());
    assert!(ready.surfaces.get(PageNo::from_index(3), s0, 0).is_none());
}

#[test]
fn neighbors_beyond_the_budget_go_farthest_first() {
    let mut ready = sample_pages(9);
    let scale = Scale::from_factor(1000);
    ready.visible = PageNo::from_index(4);
    for i in [3, 4, 5, 7] {
        ready.surfaces.insert(PageNo::from_index(i), 0, fake_surface(scale));
    }
    assert_eq!(ready.surfaces.neighbor_bytes(4), 48);
    assert_eq!(ready.surfaces.page_bytes(7), 16);
    assert_eq!(ready.surfaces.page_bytes(8), 0);
    ready.surfaces.enforce_neighbor_budget(4, 33);
    assert!(ready.surfaces.fallback_for_page(PageNo::from_index(7)).is_none());
    assert_eq!(ready.surfaces.neighbor_bytes(4), 32);
    ready.surfaces.enforce_neighbor_budget(4, 0);
    assert_eq!(ready.surfaces.neighbor_bytes(4), 0);
    assert!(ready.surfaces.fallback_for_page(PageNo::from_index(4)).is_some());
}

#[test]
fn stale_doc_gen_render_is_ignored() {
    let mut session = window(sample_ready());
    let ready = active(&session);
    let page = ready.visible;
    let scale = page_scale(ready, page);
    let message = Message::Rendered {
        page,
        scale,
        rotation: 0,
        doc_gen: ready.open_gen.wrapping_add(1),
        render_gen: ready.render_gen,
        surface: Some(fake_surface(scale)),
        geometry: geometry(ready),
    };
    apply(&mut session, message);
    assert!(active(&session).surfaces.get(page, scale, 0).is_none());
}

#[test]
fn page_data_failure_is_not_retried() {
    let mut session = window(sample_ready());
    let page = PageNo::from_index(1);
    let doc_gen = active(&session).open_gen;
    apply(&mut session, Message::PageData { page, doc_gen, read: Err("boom".to_string()) });
    let ready = active(&session);
    assert!(ready.page_data_failed.contains(page.index()));
    assert_ne!(ready.next_page_data_target(&geometry(ready)), Some(page));
}

#[test]
fn work_goes_outline_then_visible_then_reading() {
    let mut session = window(sample_pages(3));
    let first = apply(&mut session, go_to(0));
    assert!(matches!(first[0], Action::LoadOutline { engine: 7, doc_gen: 0 }));
    let second = apply(&mut session, go_to(0));
    match &second[0] {
        Action::Render { page, rotation, render_gen, .. } => {
            assert_eq!(*page, PageNo::first());
            assert_eq!((*rotation, *render_gen), (0, 1));
        }
        other => panic!("unexpected {other:?}"),
    }
    assert!(apply(&mut session, go_to(0)).iter().all(|a| !matches!(a, Action::Render { .. })));
    let scale = page_scale(active(&session), PageNo::first());
    let message = rendered(&session, PageNo::first(), scale, 1, Some(fake_surface(scale)));
    let third = apply(&mut session, message);
    assert!(third.iter().any(|a| matches!(a, Action::LoadPage { page: PageNo(1), .. })));
    let read = Ok((a4(), text_page(1)));
    let fourth = apply(&mut session, Message::PageData { page: PageNo::from_index(1), doc_gen: 0, read });
    assert!(fourth.iter().any(|a| matches!(a, Action::Render { page: PageNo(1), .. })));
}

#[test]
fn thumb_cache_drops_old_scale() {
    let page = PageNo::first();
    let s1 = Scale::from_factor(1000);
    let s2 = Scale::from_factor(1500);
    let mut thumbs = ThumbCache::new();
    thumbs.insert(page, s1, fake_surface(s1));
    thumbs.insert(page, s2, fake_surface(s2));
    assert!(thumbs.get(page, s1).is_none());
    assert!(thumbs.get(page, s2).is_some());
}

#[test]
fn prefetch_budget_blocks_oversized_neighbor() {
    let ready = sample_ready();
    let next = PageNo::from_index(1);
    let mut g = geometry(&ready);
    g.pixels[1] = (200_000, 200_000);
    assert!(!ready.prefetch_fits_budget(next, &g));
    g.pixels[1] = (200, 200);
    assert!(ready.prefetch_fits_budget(next, &g));
    g.pixels[1] = (u64::MAX, u64::MAX);
    assert!(!ready.prefetch_fits_budget(next, &g));
}

#[test]
fn set_theme_updates_state_and_persists() {
    let mut session = Session::empty(Theme::Dark);
    assert_eq!(session.theme(), Theme::Dark);
    let actions = apply(&mut session, Message::SetTheme { theme: Theme::Light });
    assert_eq!(session.theme(), Theme::Light);
    assert!(matches!(actions[0], Action::SaveTheme { theme: Theme::Light }));
    let actions = apply(&mut session, Message::SetTheme { theme: Theme::Dark });
    assert!(matches!(actions[0], Action::SaveTheme { theme: Theme::Dark }));
}

#[test]
fn theme_survives_open_overflow_and_close() {
    let mut session = Session::empty(Theme::Light);
    begin(&mut session, "/docs/guia-folio.pdf");
    let gen = loading_gen(&session);
    assert_eq!(session.theme(), Theme::Light);
    apply(&mut session, opened(gen, Ok(sample_ready())));
    assert_eq!(active(&session).theme, Theme::Light);
    assert!(!active(&session).overflow_open);
    apply(&mut session, Message::ToggleOverflow);
    assert!(active(&session).overflow_open);
    apply(&mut session, Message::SetZoom { zoom: Zoom::Width });
    assert!(!active(&session).overflow_open);
    apply(&mut session, Message::Close);
    assert_eq!(session.theme(), Theme::Light);
    apply(&mut session, Message::ToggleOverflow);
    assert!(matches!(session, Session::Empty(_)));
}

#[test]
fn window_scale_sets_dpr_and_ignores_garbage() {
    let mut session = Session::empty(Theme::Dark);
    apply(&mut session, Message::WindowScale { density: c(2.0), near: false });
    assert_eq!(f(session.render_scale()), 2.0);
    apply(&mut session, Message::WindowScale { density: c(f32::NAN), near: false });
    apply(&mut session, Message::WindowScale { density: c(0.0), near: false });
    assert_eq!(f(session.render_scale()), 2.0);
    apply(&mut session, Message::WindowScale { density: c(2.0), near: true });
    assert_eq!(f(session.render_scale()), 2.0);
    apply(&mut session, Message::WindowScale { density: c(9.0), near: false });
    assert_eq!(f(session.render_scale()), 4.0);
}

#[test]
fn every_tab_sees_the_same_window() {
    let mut session = window(sample_ready());
    begin(&mut session, "/b.pdf");
    finish(&mut session, Ok(sample_ready()));
    let viewport = Viewport { width: c(800.0), height: c(600.0) };
    let actions = apply(&mut session, Message::WindowMetrics { viewport });
    assert!(matches!(actions.last(), Some(Action::QueryScale)));
    apply(&mut session, Message::SetTheme { theme: Theme::Light });
    apply(&mut session, Message::WindowScale { density: c(1.5), near: false });
    let Session::Ready(tabs) = &session else {
        panic!("expected Ready");
    };
    for doc in tabs.docs() {
        assert_eq!(doc.viewport(), viewport);
        assert_eq!(doc.theme, Theme::Light);
        assert_eq!(f(doc.render_scale), 1.5);
    }
}

#[test]
fn render_scale_survives_open_and_close() {
    let mut session = Session::Empty(EmptyState::start(Vec::new(), Theme::Dark, 0, c(2.0)));
    begin(&mut session, "/docs/guia-folio.pdf");
    assert_eq!(f(session.render_scale()), 2.0);
    let gen = loading_gen(&session);
    apply(&mut session, opened(gen, Ok(sample_ready())));
    assert_eq!(f(active(&session).render_scale), 2.0);
    apply(&mut session, Message::Close);
    assert_eq!(f(session.render_scale()), 2.0);
}

#[test]
fn suggested_marked_name_replaces_only_the_last_extension() {
    assert_eq!(suggested_marked_name("/tmp/contrato.pdf"), "contrato (marcado).pdf");
    assert_eq!(suggested_marked_name("/tmp/contrato"), "contrato (marcado).pdf");
    assert_eq!(suggested_marked_name("/tmp/ata.v1.tar.gz"), "ata.v1.tar (marcado).pdf");
    assert_eq!(suggested_marked_name("/"), "documento (marcado).pdf");
    assert_eq!(suggested_marked_name("/tmp/.."), "documento (marcado).pdf");
    assert_eq!(suggested_marked_name("/tmp/.pdf"), ".pdf (marcado).pdf");
}

#[test]
fn paths_have_names_and_folders() {
    assert_eq!(file_name("/a/b/"), Some("b".to_string()));
    assert_eq!(file_name("/a/b/."), Some("b".to_string()));
    assert_eq!(file_name("."), None);
    assert_eq!(file_name(""), None);
    assert_eq!(parent_of("/a/b"), Some("/a".to_string()));
    assert_eq!(parent_of("/a"), Some("/".to_string()));
    assert_eq!(parent_of("/"), None);
    assert_eq!(parent_of("a/./b"), Some("a".to_string()));
    assert_eq!(parent_of("/./b"), Some("/".to_string()));
    assert_eq!(parent_of("./b"), Some(".".to_string()));
    assert_eq!(parent_of("a//b/"), Some("a".to_string()));
    assert_eq!(parent_of("b"), Some(String::new()));
    assert_eq!(parent_of("."), Some(String::new()));
    assert_eq!(parent_of(""), None);
}

#[test]
fn sign_warning_only_for_signed_documents() {
    assert!(!needs_sign_warning(&PdfAnalysis { signatures: Vec::new() }));
    let signature = SignatureInfo {
        signer_name: None,
        common_name: None,
        status: SignatureStatus::IntactButUntrusted,
        status_detail: String::new(),
    };
    assert!(needs_sign_warning(&PdfAnalysis { signatures: vec![signature] }));
}

#[test]
fn same_file_detects_original_through_path_aliases() {
    let src = "/tmp/x/doc.pdf";
    let real = Some("/private/tmp/x/doc.pdf".to_string());
    assert!(is_same_file(src, src, &None, &None));
    assert!(is_same_file("/tmp/x/./doc.pdf", src, &real, &real));
    assert!(!is_same_file("/tmp/x/doc (marcado).pdf", src, &None, &real));
    assert!(!is_same_file("/tmp/y.pdf", src, &Some("/tmp/y.pdf".to_string()), &real));
}

#[test]
fn zoom_factors_are_kept_between_their_ends() {
    let mut current = 1.0f32;
    let mut session = window(sample_ready());
    for _ in 0..40 {
        current /= 1.1;
        apply(&mut session, manual(current));
        assert!(zoom_factor(active(&session)) >= 0.25);
    }
    assert_eq!(zoom_factor(active(&session)), 0.25);
    apply(&mut session, manual(99.0));
    assert_eq!(zoom_factor(active(&session)), 8.0);
}

#[test]
fn stale_and_failed_renders_recover_on_next_zoom() {
    let mut session = window(sample_ready());
    let gen0 = active(&session).render_gen;
    let mut current = 1.0f32;
    for _ in 0..10 {
        current /= 1.1;
        apply(&mut session, manual(current));
    }
    let page = active(&session).visible;
    let gen = active(&session).render_gen;
    assert!(gen > gen0);
    let wrong = Scale::from_factor(9000);
    let message = rendered(&session, page, wrong, gen0, Some(fake_surface(wrong)));
    apply(&mut session, message);
    assert!(active(&session).surfaces.fallback_for_page(page).is_none());
    let now = page_scale(active(&session), page);
    let message = rendered(&session, page, now, gen, None);
    apply(&mut session, message);
    apply(&mut session, manual(0.5));
    let scale = page_scale(active(&session), page);
    let gen = active(&session).render_gen;
    let message = rendered(&session, page, scale, gen, Some(fake_surface(scale)));
    apply(&mut session, message);
    assert!(active(&session).surfaces.get(page, scale, 0).is_some());
}

#[test]
fn modal_dialogs_hold_the_tabs() {
    let mut session = window(sample_ready());
    begin(&mut session, "/b.pdf");
    finish(&mut session, Ok(sample_ready()));
    apply(&mut session, Message::OpenPrintDialog);
    apply(&mut session, Message::SelectTab { index: 0 });
    apply(&mut session, Message::CycleTab { step: 1 });
    apply(&mut session, Message::CloseTab { index: 0 });
    let Session::Ready(tabs) = &session else {
        panic!("expected Ready");
    };
    assert_eq!((tabs.len(), tabs.active_index()), (2, 1));
}

#[test]
fn late_pages_are_searched() {
    let mut session = window(sample_ready());
    apply(&mut session, Message::SearchChanged { query: "GUIA".to_string() });
    assert_eq!(active(&session).search.hits().len(), 1);
    let read = Ok((a4(), text_page(1)));
    apply(&mut session, Message::PageData { page: PageNo::from_index(1), doc_gen: 0, read });
    assert_eq!(active(&session).search.hits().len(), 2);
    assert_eq!(active(&session).text_layers().len(), 2);
    let beyond = Ok((a4(), text_page(9)));
    apply(&mut session, Message::PageData { page: PageNo::from_index(9), doc_gen: 0, read: beyond });
    assert_eq!(active(&session).search.hits().len(), 2);
}

#[test]
fn pages_panel_restores_its_scroll() {
    let mut session = window(sample_ready());
    apply(&mut session, Message::PagesScrolled { y: c(312.0) });
    let open = apply(&mut session, Message::TogglePages);
    assert!(open.iter().any(|a| matches!(a, Action::ScrollPages { y } if f(*y) == 312.0)));
    let shut = apply(&mut session, Message::TogglePages);
    assert!(!shut.iter().any(|a| matches!(a, Action::ScrollPages { .. })));
    assert!(active_mut(&mut session).thumbs.entries.is_empty());
}

#[test]
fn paths_with_the_same_parts_are_the_same() {
    assert!(is_same_place("/a//b", "/a/b"));
    assert!(is_same_place("/a/./b/", "/a/b"));
    assert!(is_same_place("//a", "/a"));
    assert!(is_same_place("a/b/.", "a//b"));
    assert!(is_same_place("./a", ".//a"));
    assert!(!is_same_place("./a", "a"));
    assert!(!is_same_place("/a", "a"));
    assert!(!is_same_place("/a/../b", "/b"));
    assert!(!is_same_place("/a/b", "/b/a"));
    assert!(!is_same_place("/", ""));
    assert!(!is_same_place("/", "."));
    assert!(is_same_place("", ""));
    assert!(is_same_file("/tmp//x.pdf", "/tmp/x.pdf", &None, &None));
}

#[test]
fn recents_know_a_document_however_it_is_written() {
    let mut session = empty_with(vec!["/docs//a.pdf", "/docs/b.pdf"]);
    begin(&mut session, "/docs/a.pdf");
    let mut ready = sample_ready();
    ready.source = OpenSource::Path("/docs/a.pdf".to_string());
    session.finish_open(Ok(ready), vec!["/docs/./b.pdf".to_string(), "/c.pdf".to_string()], None);
    assert_eq!(recents_of(&session), vec!["/docs/a.pdf", "/docs/b.pdf", "/c.pdf"]);
}

#[test]
fn recents_are_the_same_in_every_tab() {
    let mut session = window(sample_ready());
    begin(&mut session, "/docs/b.pdf");
    let mut second = sample_ready();
    second.source = OpenSource::Path("/docs/b.pdf".to_string());
    session.finish_open(Ok(second), vec!["/old.pdf".to_string()], None);
    let each = |s: &Session| match s {
        Session::Ready(tabs) => tabs.docs().iter().map(|doc| doc.recents.clone()).collect::<Vec<_>>(),
        other => panic!("expected documents, got {other:?}"),
    };
    assert_eq!(each(&session), vec![vec!["/docs/b.pdf", "/old.pdf"]; 2]);
    let doc_gen = active(&session).open_gen;
    let saved = Message::SaveCopyDone {
        doc_gen,
        dest: "/docs/copy.pdf".to_string(),
        saved: Ok(()),
        stored: Vec::new(),
    };
    apply(&mut session, saved);
    assert_eq!(each(&session), vec![vec!["/docs/copy.pdf", "/docs/b.pdf", "/old.pdf"]; 2]);
}

#[test]
fn generations_are_never_given_twice() {
    let pending = |s: &Session| match s {
        Session::Ready(tabs) => tabs.pending.as_ref().map(|(gen, _)| *gen),
        other => panic!("expected documents, got {other:?}"),
    };
    let mut session = empty_with(Vec::new());
    begin(&mut session, "/a.pdf");
    assert_eq!(loading_gen(&session), 1);
    finish(&mut session, Ok(sample_ready()));
    begin(&mut session, "/b.pdf");
    assert_eq!(pending(&session), Some(2));
    finish(&mut session, Ok(sample_ready()));
    apply(&mut session, Message::CloseTab { index: 1 });
    begin(&mut session, "/c.pdf");
    assert_eq!(pending(&session), Some(3));
    finish(&mut session, Err(OpenError::Engine("motor quebrou".to_string())));
    begin(&mut session, "/d.pdf");
    assert_eq!(pending(&session), Some(4));
    apply(&mut session, Message::Close);
    begin(&mut session, "/e.pdf");
    assert_eq!(loading_gen(&session), 5);
}

#[test]
fn scrolled_documents_follow_the_history() {
    let mut session = window(sample_pages(9));
    apply(&mut session, Message::SetViewMode { view_mode: ViewMode::Continuous });
    apply(&mut session, go_to(4));
    let scrolls = |actions: &[Action], index: u32| {
        actions.iter().any(|a| matches!(a, Action::ScrollTo { page } if page.index() == index))
    };
    let back = apply(&mut session, Message::HistoryBack);
    assert_eq!(active(&session).visible.index(), 0);
    assert!(scrolls(&back, 0));
    let forward = apply(&mut session, Message::HistoryForward);
    assert!(scrolls(&forward, 4));
    let jump = apply(&mut session, Message::OutlineJump { page: PageNo::from_index(6) });
    assert!(scrolls(&jump, 6));
}

#[test]
fn stored_positions_come_back() {
    let mut session = window(sample_pages(9));
    apply(&mut session, Message::SetZoom { zoom: Zoom::Page });
    apply(&mut session, Message::SetViewMode { view_mode: ViewMode::Continuous });
    let actions = apply(&mut session, go_to(6));
    let stored = actions.iter().find_map(|a| match a {
        Action::SavePosition { path, page, zoom, mode } => {
            Some((path.clone(), DocPosition { page: *page, zoom: *zoom, mode: *mode, size: 5, mtime: 6 }))
        }
        _ => None,
    });
    let (path, position) = stored.expect("a position");
    let entries = record_position(Vec::new(), path, position);
    let found = find_position(&entries, "/docs//guia-folio.pdf", Some((5, 6)));
    let mut again = empty_with(Vec::new());
    begin(&mut again, "/docs/guia-folio.pdf");
    again.finish_open(Ok(sample_pages(9)), Vec::new(), found);
    let ready = active(&again);
    assert_eq!((ready.visible.index(), ready.zoom, ready.view_mode), (6, Zoom::Page, ViewMode::Continuous));
    assert_eq!((ready.history.pages.len(), ready.history.pos), (1, 0));
    assert_eq!(find_position(&entries, "/docs/guia-folio.pdf", Some((5, 7))), None);
}

#[test]
fn every_tab_gets_the_size_of_the_window() {
    let mut session = window(sample_ready());
    begin(&mut session, "/b.pdf");
    finish(&mut session, Ok(sample_ready()));
    let viewport = Viewport { width: c(500.0), height: c(400.0) };
    let actions = apply(&mut session, Message::SetViewport { viewport });
    assert!(actions.iter().any(|a| matches!(a, Action::Schedule)));
    let Session::Ready(tabs) = &session else {
        panic!("expected documents");
    };
    assert!(tabs.docs().iter().all(|doc| doc.viewport == viewport));
}
