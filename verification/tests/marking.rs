//! Selecting text, marking it, and the notes on it.

use tsuro::annot::{AnnotKind, Annotation, Marks};
use tsuro::marking::clamped_marker_pt;
use tsuro::messages::Message;
use tsuro::page::{Coord, Glyph, MediaBox, PageNo, Point, Quad, Scale, TextLayer, TextRange};
use tsuro::ready::Ready;
use tsuro::session::Session;
use tsuro::state::{
    Action, Geometry, NavCmd, NoteDraft, OpenSource, PdfAnalysis, PressAnchor, Selection, Zoom,
};
use tsuro::tabs::Tabs;

fn c(value: f32) -> Coord {
    let bits = (value.to_bits() & 0x7fff_ffff) as i32;
    if value.is_sign_negative() {
        Coord(-bits)
    } else {
        Coord(bits)
    }
}

fn f(value: Coord) -> f32 {
    let magnitude = f32::from_bits(value.0.unsigned_abs());
    if value.0 < 0 {
        -magnitude
    } else {
        magnitude
    }
}

fn rect(left: f32, bottom: f32, right: f32, top: f32) -> Quad {
    Quad::from_rect(c(left), c(bottom), c(right), c(top))
}

fn text_page(page: u32) -> TextLayer {
    let plain = "Guia de leitura";
    let glyphs = plain
        .chars()
        .enumerate()
        .map(|(i, ch)| {
            let x = 72.0 + i as f32 * 8.0;
            Glyph { cluster: ch.to_string(), quad: rect(x, 700.0, x + 8.0, 710.0) }
        })
        .collect();
    TextLayer { page: PageNo::from_index(page), plain: plain.to_string(), glyphs }
}

fn a4() -> MediaBox {
    MediaBox { width: c(595.0), height: c(842.0) }
}

fn sample_pages(total: u32) -> Ready {
    let source = OpenSource::Path("/docs/guia-folio.pdf".to_string());
    let first = Ok((a4(), text_page(0)));
    Ready::from_parts(source, Ok((7, total)), first, Ok(PdfAnalysis { signatures: Vec::new() })).unwrap()
}

fn sample_ready() -> Ready {
    sample_pages(2)
}

fn factor(ready: &Ready, page: PageNo) -> f32 {
    let media = ready.rotated_media(page);
    let mut width = f(ready.viewport.width) - 8.0;
    if ready.pages_open {
        width -= 156.0 + 12.0;
    }
    if ready.signatures_open {
        width -= 220.0 + 12.0;
    }
    let width = (width - 48.0).max(1.0);
    let height = (f(ready.viewport.height) - 8.0).max(1.0);
    match ready.zoom {
        Zoom::Manual(z) => f(z.get()),
        Zoom::Width => width / f(media.width).max(1.0),
        Zoom::Page => (width / f(media.width).max(1.0)).min(height / f(media.height).max(1.0)),
    }
}

fn dpr(ready: &Ready) -> f32 {
    f(ready.render_scale).max(1.0)
}

fn page_scale(ready: &Ready, page: PageNo) -> Scale {
    Scale::from_factor((factor(ready, page) * dpr(ready) * 1000.0).round() as u32)
}

fn thumb_scale(ready: &Ready, page: PageNo) -> Scale {
    let fit = (120.0 / f(ready.media(page).width).max(1.0)).clamp(0.05, 2.0);
    Scale::from_factor((fit * dpr(ready) * 1000.0).round() as u32)
}

fn geometry(ready: &Ready) -> Geometry {
    let mut scales = Vec::new();
    let mut thumb_scales = Vec::new();
    let mut pixels = Vec::new();
    for i in 0..ready.page_count() {
        let page = PageNo::from_index(i);
        let scale = page_scale(ready, page);
        let media = ready.media(page);
        let by = scale.factor() as f32 / 1000.0;
        scales.push(scale);
        thumb_scales.push(thumb_scale(ready, page));
        pixels.push(((f(media.width) * by).round() as u64, (f(media.height) * by).round() as u64));
    }
    Geometry {
        scales,
        thumb_scales,
        pixels,
        blank: Scale::from_factor(65_000),
        window_first: 0,
        window_last: 0,
        thumb_first: (f(ready.pages_scroll_y) / 156.0).floor().max(0.0) as u32,
    }
}

fn active(session: &Session) -> &Ready {
    match session {
        Session::Ready(tabs) => tabs.active(),
        other => panic!("expected documents, got {other:?}"),
    }
}

fn active_mut(session: &mut Session) -> &mut Ready {
    match session {
        Session::Ready(tabs) => {
            let i = tabs.active;
            &mut tabs.docs[i]
        }
        other => panic!("expected documents, got {other:?}"),
    }
}

fn window(ready: Ready) -> Session {
    Session::Ready(Tabs::single(ready))
}

fn apply(session: &mut Session, message: Message) -> Vec<Action> {
    let mut done = Vec::new();
    for action in session.update(message) {
        if matches!(action, Action::Schedule) {
            if let Session::Ready(_) = session {
                let g = geometry(active(session));
                if let Some(work) = session.schedule_work(&g) {
                    done.push(work);
                }
            }
        }
        done.push(action);
    }
    done
}

fn go_to(index: u32) -> Message {
    Message::Nav { cmd: NavCmd::GoTo(PageNo::from_index(index)) }
}

fn pt(x: f32, y: f32) -> Point {
    Point { x: c(x), y: c(y) }
}

fn xy(point: Point) -> [f32; 2] {
    [f(point.x), f(point.y)]
}

fn distances(ready: &Ready, page: PageNo, at: [f32; 2]) -> Vec<Coord> {
    let Some(Some(layer)) = ready.pages.text.get(page.index() as usize) else {
        return Vec::new();
    };
    layer
        .glyphs
        .iter()
        .map(|g| {
            let (left, bottom, right, top) = g.quad.bbox();
            let dx = (f(left) - at[0]).max(at[0] - f(right)).max(0.0);
            let dy = (f(bottom) - at[1]).max(at[1] - f(top)).max(0.0);
            c(dx * dx + dy * dy)
        })
        .collect()
}

fn markers(ready: &Ready, page: PageNo, at: [f32; 2]) -> Vec<u64> {
    let zoom = factor(ready, page);
    ready
        .marks
        .annotations
        .iter()
        .filter(|a| a.page == page && a.kind == AnnotKind::Note)
        .filter(|a| {
            let [mx, my] = xy(a.marker_pt());
            let (_, bottom, _, top) = a.quads[0].bbox();
            let side = ((f(top) - f(bottom)) * zoom).clamp(6.0, 14.0);
            let (dx, dy) = ((at[0] - mx) * zoom, (my - at[1]) * zoom);
            dx >= -2.0 && dx <= side + 2.0 && dy >= -2.0 && dy <= side + 2.0
        })
        .map(|a| a.id)
        .collect()
}

/// Whether the marker that is dragged has gone far, and where it would stand.
fn dragged(ready: &Ready, page: PageNo, at: [f32; 2]) -> (bool, Point) {
    let Some(drag) = &ready.note_drag else {
        return (false, pt(0.0, 0.0));
    };
    let at = if drag.page == page { at } else { xy(drag.at) };
    let from = xy(drag.from);
    let origin = xy(drag.marker0);
    let (dx, dy) = (at[0] - from[0], at[1] - from[1]);
    let zoom = factor(ready, drag.page);
    let far = ((dx * zoom).powi(2) + (dy * zoom).powi(2)).sqrt() >= 4.0;
    (far, clamped_marker_pt(pt(origin[0] + dx, origin[1] + dy), ready.media(drag.page)))
}

fn down(session: &mut Session, page: PageNo, at: [f32; 2], sheet: [f32; 2]) -> Vec<Action> {
    let ready = active(session);
    let message = Message::PointerDown {
        page,
        pt: pt(at[0], at[1]),
        sheet: pt(sheet[0], sheet[1]),
        distances: distances(ready, page, at),
        markers: markers(ready, page, at),
    };
    apply(session, message)
}

fn drag_to(session: &mut Session, page: PageNo, at: [f32; 2]) -> Vec<Action> {
    let message =
        Message::PointerMove { page, pt: pt(at[0], at[1]), distances: distances(active(session), page, at) };
    apply(session, message)
}

fn up(session: &mut Session, page: PageNo, at: [f32; 2]) -> Vec<Action> {
    let ready = active(session);
    let (far, drop_at) = dragged(ready, page, at);
    let message =
        Message::PointerUp { page, pt: pt(at[0], at[1]), markers: markers(ready, page, at), far, drop_at };
    apply(session, message)
}

fn hit(ready: &Ready, page: PageNo, at: [f32; 2]) -> Option<u64> {
    ready.annotation_at(page, pt(at[0], at[1]), &markers(ready, page, at))
}

fn first_two() -> Selection {
    Selection { page: PageNo::first(), range: TextRange { start: 0, end: 2 } }
}

fn dummy_draft_with(text: &str) -> NoteDraft {
    NoteDraft {
        page: PageNo::first(),
        range: TextRange { start: 0, end: 2 },
        quads: vec![rect(0.0, 0.0, 10.0, 10.0)],
        content: text.to_string(),
        editing: None,
        marker: pt(0.0, 10.0),
        anchor: pt(0.0, 0.0),
        anchor_scroll: c(0.0),
    }
}

fn quad_center(q: Quad) -> [f32; 2] {
    let (left, bottom, right, top) = q.bbox();
    [(f(left) + f(right)) / 2.0, (f(bottom) + f(top)) / 2.0]
}

fn note_on_selection(ready: &mut Ready, text: &str) -> Annotation {
    ready.selection = Some(first_two());
    assert!(ready.open_note_draft());
    ready.note_draft.as_mut().unwrap().content = text.to_string();
    assert!(ready.save_note_draft());
    ready.marks.annotations.last().cloned().unwrap()
}

fn undo_len(session: &Session) -> usize {
    active(session).marks.annot_undo.len()
}

#[test]
fn annotate_clears_selection_and_unfocus_kills_drag() {
    let mut ready = sample_ready();
    ready.selection = Some(first_two());
    let mut session = window(ready);
    apply(&mut session, Message::Annotate { kind: AnnotKind::Highlight });
    assert_eq!(active(&session).marks.annotations.len(), 1);
    assert!(active(&session).selection.is_none());
    let ready = active_mut(&mut session);
    ready.selection = Some(first_two());
    ready.press_anchor = Some(PressAnchor { sel: first_two(), exact: true });
    apply(&mut session, Message::DragCancelled);
    assert!(active(&session).press_anchor.is_none());
    assert!(active(&session).selection.is_some());
}

#[test]
fn annotate_selection_undo_redo_remove() {
    let mut ready = sample_ready();
    assert!(!ready.annotate_selection(AnnotKind::Highlight));
    assert!(ready.marks.annotations.is_empty());
    ready.selection = Some(first_two());
    assert!(ready.annotate_selection(AnnotKind::Highlight));
    assert_eq!(ready.marks.annotations.len(), 1);
    assert_eq!(ready.marks.annotations[0].kind, AnnotKind::Highlight);
    assert!(ready.marks.can_annot_undo());
    assert!(ready.annot_undo_once());
    assert!(ready.marks.annotations.is_empty());
    assert!(ready.marks.can_annot_redo());
    assert!(ready.annot_redo_once());
    assert_eq!(ready.marks.annotations.len(), 1);
    assert!(ready.annot_undo_once());
    assert!(ready.annotate_selection(AnnotKind::Underline));
    assert!(!ready.marks.can_annot_redo());
    let annot = ready.marks.annotations[0].clone();
    assert!(!annot.quads.is_empty());
    let center = quad_center(annot.quads[0]);
    assert_eq!(hit(&ready, annot.page, center), Some(annot.id));
    assert_eq!(hit(&ready, annot.page, [-1000.0, -1000.0]), None);
    ready.press_anchor = Some(PressAnchor { sel: first_two(), exact: true });
    let mut session = window(ready);
    up(&mut session, annot.page, center);
    assert!(active(&session).marks.annotations.is_empty());
}

#[test]
fn note_draft_save_creates_note_with_text() {
    let mut ready = sample_ready();
    assert!(!ready.marks.can_annot_undo());
    ready.note_draft = Some(dummy_draft_with("olá mundo"));
    assert!(ready.save_note_draft());
    assert!(ready.note_draft.is_none());
    assert_eq!(ready.marks.annotations.len(), 1);
    assert_eq!(ready.marks.annotations[0].kind, AnnotKind::Note);
    assert_eq!(ready.marks.annotations[0].text, "olá mundo");
    assert!(ready.marks.can_annot_undo());
}

#[test]
fn note_draft_save_whitespace_discards_without_undo_entry() {
    let mut ready = sample_ready();
    ready.note_draft = Some(dummy_draft_with("   \n"));
    assert!(!ready.save_note_draft());
    assert!(ready.note_draft.is_none());
    assert!(ready.marks.annotations.is_empty());
    assert!(!ready.marks.can_annot_undo());
    assert!(!ready.marks.can_annot_redo());
}

#[test]
fn note_add_undo_redo() {
    let mut ready = sample_ready();
    ready.note_draft = Some(dummy_draft_with("nota"));
    assert!(ready.save_note_draft());
    assert_eq!(ready.marks.annotations.len(), 1);
    assert!(ready.annot_undo_once());
    assert!(ready.marks.annotations.is_empty());
    assert!(!ready.marks.can_annot_undo());
    assert!(ready.marks.can_annot_redo());
    assert!(ready.annot_redo_once());
    assert_eq!(ready.marks.annotations.len(), 1);
    assert_eq!(ready.marks.annotations[0].kind, AnnotKind::Note);
    assert_eq!(ready.marks.annotations[0].text, "nota");
}

#[test]
fn note_edit_undo_restores_old_text() {
    let mut ready = sample_ready();
    ready.note_draft = Some(dummy_draft_with("antiga"));
    assert!(ready.save_note_draft());
    let id = ready.marks.annotations[0].id;
    let mut draft = dummy_draft_with("nova");
    draft.editing = Some(id);
    ready.note_draft = Some(draft);
    assert!(ready.save_note_draft());
    assert_eq!(ready.marks.annotations.len(), 1);
    assert_ne!(ready.marks.annotations[0].id, id);
    assert_eq!(ready.marks.annotations[0].text, "nova");
    assert!(ready.annot_undo_once());
    assert!(ready.marks.annotations.is_empty());
    assert!(ready.annot_undo_once());
    assert_eq!(ready.marks.annotations.len(), 1);
    assert_eq!(ready.marks.annotations[0].id, id);
    assert_eq!(ready.marks.annotations[0].text, "antiga");
}

#[test]
fn note_draft_requires_selection() {
    let mut ready = sample_ready();
    ready.selection = None;
    assert!(!ready.open_note_draft());
    assert!(ready.note_draft.is_none());
    assert!(ready.marks.annotations.is_empty());
    ready.selection = Some(first_two());
    ready.note_draft = Some(dummy_draft_with("digitando..."));
    assert!(!ready.open_note_draft());
    assert_eq!(ready.note_draft.as_ref().unwrap().content, "digitando...");
}

#[test]
fn note_draft_reopens_existing_note_in_editing_mode() {
    let mut ready = sample_ready();
    ready.note_draft = Some(dummy_draft_with("anotação"));
    assert!(ready.save_note_draft());
    let id = ready.marks.annotations[0].id;
    ready.selection = Some(first_two());
    assert!(ready.open_note_draft());
    let draft = ready.note_draft.as_ref().unwrap();
    assert_eq!(draft.editing, Some(id));
    assert_eq!(draft.content, "anotação");
    ready.note_draft = None;
    ready.selection = None;
    assert!(ready.open_note_draft_for_id(id));
    let draft = ready.note_draft.as_ref().unwrap();
    assert_eq!(draft.page, PageNo::first());
    assert_eq!(draft.range, TextRange { start: 0, end: 2 });
    assert_eq!(draft.editing, Some(id));
    assert_eq!(draft.content, "anotação");
    assert!(ready.selection.is_none());
    assert!(!ready.open_note_draft_for_id(u64::MAX));
}

#[test]
fn note_delete_from_draft_stacks_remove_and_undo_restores() {
    let mut ready = sample_ready();
    let note = note_on_selection(&mut ready, "apagar");
    assert!(ready.open_note_draft_for_id(note.id));
    let mut session = window(ready);
    apply(&mut session, Message::NoteDelete);
    assert!(active(&session).note_draft.is_none());
    assert!(active(&session).marks.annotations.is_empty());
    assert!(active(&session).marks.can_annot_undo());
    apply(&mut session, Message::AnnotUndo);
    let marks = &active(&session).marks.annotations;
    assert_eq!(marks.len(), 1);
    assert_eq!(marks[0].id, note.id);
    assert_eq!(marks[0].text, "apagar");
    assert_eq!(marks[0].quads, note.quads);
}

#[test]
fn note_delete_without_editing_keeps_draft() {
    let mut ready = sample_ready();
    ready.note_draft = Some(dummy_draft_with("nova"));
    assert!(!ready.delete_draft_note());
    assert!(ready.note_draft.is_some());
    assert!(ready.marks.annotations.is_empty());
    assert!(!ready.marks.can_annot_undo());
}

#[test]
fn note_drag_drop_moves_marker_and_keeps_quads() {
    let mut ready = sample_ready();
    let note = note_on_selection(&mut ready, "mover");
    let page = note.page;
    let start = xy(note.marker_pt());
    let to = [start[0] + 14.0, start[1] - 9.0];
    let want = [start[0] + 14.0, start[1] - 9.0];
    let mut session = window(ready);
    let undo_before = undo_len(&session);

    down(&mut session, page, start, [120.0, 60.0]);
    drag_to(&mut session, page, to);
    let ready = active(&session);
    assert_eq!(ready.marks.annotations[0].quads, note.quads);
    assert_eq!(ready.marks.annotations[0].marker, None);
    assert_eq!(ready.note_drag.as_ref().unwrap().id, note.id);
    let (far, shown_at) = dragged(ready, page, to);
    assert!(far);
    assert_eq!(xy(shown_at), want);

    up(&mut session, page, to);
    let ready = active(&session);
    let moved = &ready.marks.annotations[0];
    assert_eq!(ready.marks.annotations.len(), 1);
    assert_eq!(moved.id, note.id);
    assert_eq!(moved.text, "mover");
    assert_eq!(moved.kind, AnnotKind::Note);
    assert_eq!(moved.range, note.range);
    assert_eq!(moved.quads, note.quads);
    assert_eq!(moved.marker, Some(shown_at));
    assert!(ready.note_drag.is_none());
    assert_eq!(ready.marks.annot_undo.len(), undo_before + 2);

    apply(&mut session, Message::AnnotUndo);
    apply(&mut session, Message::AnnotUndo);
    let ready = active(&session);
    assert_eq!(ready.marks.annotations.len(), 1);
    assert_eq!(ready.marks.annotations[0].id, note.id);
    assert_eq!(ready.marks.annotations[0].marker, None);
    assert_eq!(xy(ready.marks.annotations[0].marker_pt()), start);
    assert_eq!(ready.marks.annotations[0].quads, note.quads);
}

#[test]
fn marker_drag_starts_on_icon_line_press_selects_text() {
    let mut ready = sample_ready();
    let note = note_on_selection(&mut ready, "arrastada");
    let page = note.page;
    let line_pt = quad_center(note.quads[0]);
    let media = ready.media(page);
    let press = xy(note.marker_pt());
    let far = [5.0, 5.0];
    let delta = [far[0] - press[0], far[1] - press[1]];
    let end = [press[0] + delta[0], press[1] + delta[1]];
    let mut session = window(ready);
    down(&mut session, page, press, [0.0, 0.0]);
    drag_to(&mut session, page, end);
    up(&mut session, page, end);
    let ready = active(&session);
    let moved = xy(ready.marks.annotations[0].marker.unwrap());
    assert_eq!(moved, far);
    assert!(!note.quads.iter().any(|q| q.contains(c(far[0]), c(far[1]))));
    assert_eq!(hit(ready, page, moved), Some(note.id));
    assert_eq!(hit(ready, page, line_pt), None);
    assert_eq!(hit(ready, page, [f(media.width) * 0.5, f(media.height) * 0.5]), None);
    down(&mut session, page, line_pt, [0.0, 0.0]);
    assert!(active(&session).note_drag.is_none());
    assert!(active(&session).press_anchor.is_some());
    up(&mut session, page, line_pt);
    assert!(active(&session).note_draft.is_none());
}

#[test]
fn note_marker_clamped_to_page() {
    let mut ready = sample_ready();
    let note = note_on_selection(&mut ready, "borda");
    let page = note.page;
    let start = xy(note.marker_pt());
    let media = ready.media(page);
    let out = [start[0] + f(media.width) * 2.0, start[1] - f(media.height) * 2.0];
    let mut session = window(ready);
    down(&mut session, page, start, [0.0, 0.0]);
    drag_to(&mut session, page, out);
    up(&mut session, page, out);
    let marker = active(&session).marks.annotations[0].marker.unwrap();
    assert_eq!(xy(marker), [f(media.width), 0.0]);
}

#[test]
fn marker_default_none_and_kept_on_edit() {
    let mut ready = sample_ready();
    let note = note_on_selection(&mut ready, "original");
    assert_eq!(note.marker, None);
    let derived = xy(note.marker_pt());
    let (left, _, _, top) = note.quads[0].bbox();
    assert_eq!(derived, [f(left), f(top)]);

    assert!(ready.open_note_draft_for_id(note.id));
    ready.note_draft.as_mut().unwrap().content = "editada".to_string();
    assert!(ready.save_note_draft());
    let edited = ready.marks.annotations.last().cloned().unwrap();
    assert_eq!(edited.marker, None);
    assert_eq!(xy(edited.marker_pt()), derived);
    assert_eq!(edited.quads, note.quads);
    assert_eq!(edited.range, note.range);
    assert_eq!(edited.text, "editada");

    let marker = Some(pt(derived[0] + 30.0, derived[1] - 20.0));
    ready.marks.annotations = vec![Annotation { marker, ..edited.clone() }];
    assert!(ready.open_note_draft_for_id(edited.id));
    ready.note_draft.as_mut().unwrap().content = "de novo".to_string();
    assert!(ready.save_note_draft());
    let again = ready.marks.annotations.last().cloned().unwrap();
    assert_eq!(again.marker, marker);
    assert_eq!(again.text, "de novo");
    assert_eq!(again.quads, note.quads);
}

#[test]
fn note_drag_small_press_opens_editor_instead_of_moving() {
    let mut ready = sample_ready();
    let note = note_on_selection(&mut ready, "clicar");
    let page = note.page;
    let start = xy(note.marker_pt());
    let mut session = window(ready);
    let undo_before = undo_len(&session);
    down(&mut session, page, start, [10.0, 10.0]);
    drag_to(&mut session, page, [start[0] + 2.0, start[1]]);
    assert!(!dragged(active(&session), page, [start[0] + 2.0, start[1]]).0);
    let actions = up(&mut session, page, start);
    assert!(actions.iter().any(|a| matches!(a, Action::FocusPostit)));
    let ready = active(&session);
    assert_eq!(ready.note_draft.as_ref().unwrap().editing, Some(note.id));
    assert_eq!(ready.marks.annotations[0].quads, note.quads);
    assert_eq!(ready.marks.annotations[0].marker, None);
    assert_eq!(ready.marks.annot_undo.len(), undo_before);
    assert!(ready.selection.is_none());
}

#[test]
fn note_drag_cancel_paths_leave_note_untouched() {
    for cancel in [Message::DragCancelled, Message::ClosePrintDialog] {
        let mut ready = sample_ready();
        let note = note_on_selection(&mut ready, "cancelar");
        let page = note.page;
        let start = xy(note.marker_pt());
        let to = [start[0] + 40.0, start[1] + 25.0];
        let mut session = window(ready);
        let undo_before = undo_len(&session);
        down(&mut session, page, start, [0.0, 0.0]);
        drag_to(&mut session, page, to);
        apply(&mut session, cancel);
        let ready = active(&session);
        assert!(ready.note_drag.is_none());
        assert_eq!(ready.marks.annotations[0].quads, note.quads);
        assert_eq!(ready.marks.annotations[0].marker, None);
        assert_eq!(ready.marks.annot_undo.len(), undo_before);
    }
}

#[test]
fn notes_open_where_the_window_shows_them() {
    let mut ready = sample_ready();
    let note = note_on_selection(&mut ready, "rolar");
    let start = xy(note.marker_pt());
    let mut session = window(ready);
    down(&mut session, note.page, start, [120.0, 60.0]);
    up(&mut session, note.page, start);
    assert_eq!(xy(active(&session).sheet_at), [120.0, 60.0]);
    session.place_note(pt(240.0, 90.0));
    let draft = active(&session).note_draft.as_ref().unwrap();
    assert_eq!(xy(draft.anchor), [240.0, 90.0]);
    assert_eq!(xy(draft.marker), start);
    assert_eq!(f(draft.anchor_scroll), 0.0);
}

#[test]
fn pointer_down_miss_and_escape_clear_selection() {
    let mut ready = sample_ready();
    ready.selection = Some(first_two());
    let mut session = window(ready);
    down(&mut session, PageNo::first(), [-1000.0, -1000.0], [0.0, 0.0]);
    assert!(active(&session).selection.is_some());
    up(&mut session, PageNo::first(), [-1000.0, -1000.0]);
    assert!(active(&session).selection.is_none());
    active_mut(&mut session).selection = Some(first_two());
    apply(&mut session, Message::ClosePrintDialog);
    assert!(active(&session).selection.is_none());
}

#[test]
fn drag_from_blank_extends_from_snapped_anchor() {
    let mut ready = sample_ready();
    ready.selection = None;
    let mut session = window(ready);
    down(&mut session, PageNo::first(), [-1000.0, -1000.0], [0.0, 0.0]);
    drag_to(&mut session, PageNo::first(), [9000.0, 9000.0]);
    let sel = active(&session).selection.unwrap();
    assert!(sel.range.end > sel.range.start);
    assert_eq!((sel.range.start, sel.range.end), (0, 15));
}

#[test]
fn clicks_on_a_glyph_keep_it_selected() {
    let mut session = window(sample_ready());
    down(&mut session, PageNo::first(), [84.0, 705.0], [0.0, 0.0]);
    up(&mut session, PageNo::first(), [84.0, 705.0]);
    let sel = active(&session).selection.unwrap();
    assert_eq!((sel.range.start, sel.range.end), (1, 2));
    assert_eq!(active(&session).selection_plain_text().as_deref(), Some("u"));
    let actions = apply(&mut session, Message::CopySelection);
    match &actions[0] {
        Action::Copy { text } => assert_eq!(text, "u"),
        other => panic!("unexpected {other:?}"),
    }
}

#[test]
fn blank_text_is_not_marked() {
    let mut ready = sample_ready();
    ready.selection = Some(Selection { page: PageNo::first(), range: TextRange { start: 4, end: 5 } });
    assert!(ready.selection_quads().is_none());
    assert!(!ready.annotate_selection(AnnotKind::Strikeout));
    assert!(!ready.open_note_draft());
    ready.selection = Some(Selection { page: PageNo::from_index(1), range: TextRange { start: 0, end: 2 } });
    assert!(ready.selection_quads().is_none());
    ready.selection = Some(first_two());
    let quads = ready.selection_quads().unwrap();
    assert_eq!(quads.len(), 1);
    let (left, bottom, right, top) = quads[0].bbox();
    assert_eq!((f(left), f(bottom), f(right), f(top)), (72.0, 700.0, 88.0, 710.0));
}

#[test]
fn marks_are_undone_one_by_one() {
    let mut marks = Marks::new();
    let quad = rect(0.0, 0.0, 10.0, 10.0);
    marks.annotate(PageNo::first(), TextRange { start: 0, end: 2 }, vec![quad], AnnotKind::Highlight);
    marks.annotate(PageNo::first(), TextRange { start: 3, end: 5 }, vec![quad], AnnotKind::Underline);
    let ids: Vec<u64> = marks.annotations.iter().map(|a| a.id).collect();
    assert_eq!(ids.len(), 2);
    assert_ne!(ids[0], ids[1]);
    assert!(marks.remove_annotation(ids[0]));
    assert!(!marks.remove_annotation(ids[0]));
    assert!(marks.annot_undo_once());
    assert_eq!(marks.annotations.len(), 2);
    assert!(marks.annot_undo_once() && marks.annot_undo_once());
    assert!(!marks.annot_undo_once());
    assert!(marks.annotations.is_empty());
    assert!(marks.annot_redo_once() && marks.annot_redo_once() && marks.annot_redo_once());
    assert!(!marks.annot_redo_once());
    assert_eq!(marks.annotations.len(), 1);
    assert_eq!(marks.annotations[0].id, ids[1]);
}

#[test]
fn markers_stay_within_the_page() {
    let media = a4();
    assert_eq!(xy(clamped_marker_pt(pt(-3.0, 900.0), media)), [0.0, 842.0]);
    assert_eq!(xy(clamped_marker_pt(pt(10.0, 20.0), media)), [10.0, 20.0]);
}

#[test]
fn typing_fills_the_draft() {
    let mut ready = sample_ready();
    ready.selection = Some(first_two());
    let mut session = window(ready);
    let actions = apply(&mut session, Message::Annotate { kind: AnnotKind::Note });
    assert!(actions.iter().any(|a| matches!(a, Action::FocusPostit)));
    apply(&mut session, Message::NoteEdit { text: "um".to_string() });
    assert_eq!(active(&session).note_draft.as_ref().unwrap().content, "um");
    apply(&mut session, Message::NoteCancel);
    assert!(active(&session).note_draft.is_none());
    assert!(active(&session).marks.annotations.is_empty());
    apply(&mut session, Message::Annotate { kind: AnnotKind::Note });
    apply(&mut session, Message::NoteEdit { text: " dois \n".to_string() });
    apply(&mut session, Message::NoteSave);
    assert_eq!(active(&session).marks.annotations[0].text, " dois");
}

#[test]
fn clicks_on_a_note_with_a_draft_open_leave_it() {
    let mut ready = sample_ready();
    let note = note_on_selection(&mut ready, "ficar");
    let page = note.page;
    let at = quad_center(note.quads[0]);
    let mut session = window(ready);
    active_mut(&mut session).note_draft = Some(dummy_draft_with("aberta"));
    let undo_before = undo_len(&session);
    let sel = first_two();
    let ready = active_mut(&mut session);
    ready.selection = Some(sel);
    ready.press_anchor = Some(PressAnchor { sel, exact: true });
    assert_eq!(hit(ready, page, at), Some(note.id));
    let actions = up(&mut session, page, at);
    assert!(actions.iter().all(|a| !matches!(a, Action::FocusPostit)));
    let ready = active(&session);
    assert_eq!(ready.marks.annotations.len(), 1);
    assert_eq!(ready.marks.annotations[0].text, "ficar");
    assert_eq!(ready.note_draft.as_ref().unwrap().content, "aberta");
    assert!(ready.press_anchor.is_none());
    assert_eq!(undo_len(&session), undo_before);
}

#[test]
fn marks_change_also_where_no_number_is_left() {
    let mut ready = sample_ready();
    let note = note_on_selection(&mut ready, "cheia");
    ready.marks.next_annot_id = u64::MAX;
    let mut session = window(ready);
    active_mut(&mut session).selection = Some(first_two());
    assert!(!session.has_room_for(&Message::Annotate { kind: AnnotKind::Highlight }));
    assert!(session.has_room_for(&Message::Annotate { kind: AnnotKind::Note }));
    assert!(session.has_room_for(&Message::NoteSave));
    assert!(session.has_room_for(&Message::AnnotUndo));
    let ready = active_mut(&mut session);
    assert!(ready.move_note_marker(note.id, pt(10.0, 20.0)));
    assert!(ready.remove_annotation(note.id));
    assert!(ready.annot_undo_once());
    assert!(ready.annot_redo_once());
    assert!(ready.marks.annotations.is_empty());
    apply(&mut session, Message::AnnotUndo);
    assert_eq!(active(&session).marks.annotations.len(), 1);
}
