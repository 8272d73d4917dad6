//! What the page engine decides.

use tsuro::annot::{AnnotKind, Annotation};
use tsuro::engine::{
    frameworks_lib_path, outline_from, page_index, pdfium_candidates_for, plan_copy, px_from_rounded,
    render_target_px, rotation_for, text_layer_from, Bookmark, MarkPlan, Registry, RenderTarget, Rotation, Side,
    MAX_RENDER_SIDE,
};
use tsuro::page::{Coord, EngineError, PageNo, Quad, TextRange};
use tsuro::paths::file_name;

fn c(value: f32) -> Coord {
    let bits = (value.to_bits() & 0x7fff_ffff) as i32;
    if value.is_sign_negative() {
        Coord(-bits)
    } else {
        Coord(bits)
    }
}

fn rect(left: f32, bottom: f32, right: f32, top: f32) -> Quad {
    Quad::from_rect(c(left), c(bottom), c(right), c(top))
}

fn side(length: f32, factor: f32) -> Side {
    let scaled = length * factor;
    let rounded = scaled.round() as i64;
    let effective = match px_from_rounded(c(scaled), rounded) {
        Ok(px) => px as f32 / length,
        Err(_) => 1.0,
    };
    Side { length: c(length), scaled: c(scaled), rounded, effective: c(effective) }
}

fn target(page_w: f32, page_h: f32, factor: f32) -> Result<RenderTarget, EngineError> {
    render_target_px(side(page_w, factor), side(page_h, factor), c(factor))
}

fn assert_too_large(page_w: f32, page_h: f32, factor: f32) {
    let err = target(page_w, page_h, factor).unwrap_err();
    assert_eq!(err.0, "página grande demais para renderizar nesta escala");
}

fn assert_invalid(page_w: f32, page_h: f32, factor: f32) {
    let err = target(page_w, page_h, factor).unwrap_err();
    assert_eq!(err.0, "dimensão de render inválida");
}

#[test]
fn rotation_for_maps_quarter_turns_clockwise() {
    assert_eq!(rotation_for(0), Rotation::Degrees0);
    assert_eq!(rotation_for(1), Rotation::Degrees90);
    assert_eq!(rotation_for(2), Rotation::Degrees180);
    assert_eq!(rotation_for(3), Rotation::Degrees270);
    assert_eq!(rotation_for(5), Rotation::Degrees90);
}

#[test]
fn render_target_rejects_narrow_tall_page() {
    assert_too_large(10.0, 100_000.0, 1.0);
}

#[test]
fn render_target_rejects_wide_short_page() {
    assert_too_large(100_000.0, 10.0, 1.0);
}

#[test]
fn render_target_rejects_pixel_cap_even_when_sides_fit() {
    assert_too_large(8_001.0, 8_000.0, 1.0);
}

#[test]
fn render_target_accepts_limits() {
    let side = target(MAX_RENDER_SIDE as f32, 1.0, 1.0).unwrap();
    assert_eq!(side.width, MAX_RENDER_SIDE as i32);
    assert_eq!(side.height, 1);
    let pixels = target(8_000.0, 8_000.0, 1.0).unwrap();
    assert_eq!(pixels.width, 8_000);
    assert_eq!(pixels.height, 8_000);
    let a4 = target(595.0, 842.0, 8.0).unwrap();
    assert_eq!(a4.width, 4_760);
    assert_eq!(a4.height, 6_736);
}

#[test]
fn render_target_rejects_non_finite_and_non_positive() {
    assert_invalid(f32::NAN, 100.0, 1.0);
    assert_invalid(100.0, f32::NAN, 1.0);
    assert_invalid(100.0, 100.0, f32::NAN);
    assert_invalid(f32::INFINITY, 100.0, 1.0);
    assert_invalid(100.0, f32::NEG_INFINITY, 1.0);
    assert_invalid(100.0, 100.0, 0.0);
    assert_invalid(0.0, 100.0, 1.0);
    assert_invalid(100.0, 0.0, 1.0);
    assert_invalid(-10.0, 100.0, 1.0);
    assert_invalid(100.0, -10.0, 1.0);
    assert_invalid(100.0, 100.0, -1.0);
    assert_invalid(1e30, 1.0, 1e10);
}

#[test]
fn render_target_rejects_subnormal_page_that_overflows_scale() {
    assert_invalid(1e-40, 1e-40, 1.0);
    assert_invalid(1e-40, 100.0, 1.0);
    assert_invalid(100.0, 1e-40, 1.0);
}

#[test]
fn sides_are_rounded_to_one_pixel_at_least() {
    assert_eq!(px_from_rounded(c(0.2), 0).unwrap(), 1);
    assert_eq!(px_from_rounded(c(12.0), 12).unwrap(), 12);
    assert!(px_from_rounded(c(-3.0), -3).is_err());
    assert!(px_from_rounded(c(16_385.0), 16_385).is_err());
}

#[test]
fn page_numbers_fit_the_engine() {
    assert_eq!(page_index(PageNo::from_index(65_535)).unwrap(), 65_535);
    assert_eq!(page_index(PageNo::from_index(65_536)).unwrap_err().0, "página fora do intervalo");
}

#[test]
fn closed_documents_are_not_served() {
    let mut registry = Registry::new();
    let (first, pages) = registry.open(Ok(()), Ok(3)).unwrap();
    let (second, _) = registry.open(Ok(()), Ok(1)).unwrap();
    assert_eq!((first, second, pages), (1, 2, 3));
    assert!(registry.with_doc(first).is_ok());
    registry.close(first);
    assert_eq!(registry.with_doc(first).unwrap_err().0, "documento fechado");
    assert!(registry.with_doc(second).is_ok());
    let (third, _) = registry.open(Ok(()), Ok(1)).unwrap();
    assert_eq!(third, 3);
}

#[test]
fn open_propagates_worker_errors_without_hanging() {
    let mut registry = Registry::new();
    let missing = registry.open(Err("sem biblioteca".to_string()), Ok(1));
    assert_eq!(missing.unwrap_err().0, "sem biblioteca");
    let broken = registry.open(Ok(()), Err("vazio".to_string()));
    assert_eq!(broken.unwrap_err().0, "não foi possível abrir o PDF: vazio");
    assert_eq!(registry.open(Ok(()), Ok(2)).unwrap(), (1, 2));
}

fn mark(id: u64, page: u32, kind: AnnotKind, quads: Vec<Quad>, text: &str) -> Annotation {
    Annotation {
        id,
        page: PageNo::from_index(page),
        range: TextRange { start: 0, end: 1 },
        quads,
        kind,
        text: text.to_string(),
        marker: None,
    }
}

#[test]
fn save_copy_writes_markup_and_note_in_session_coordinates() {
    let quads = vec![rect(1.0, 2.0, 3.0, 4.0), rect(0.0, 10.0, 8.0, 12.0), rect(5.0, 20.0, 6.0, 22.0)];
    let first = quads[0];
    let annotations = vec![
        mark(1, 0, AnnotKind::Highlight, quads.clone(), ""),
        mark(2, 0, AnnotKind::Note, vec![first], "nota do teste"),
    ];
    let plan = plan_copy(&annotations, 2).unwrap();
    assert_eq!(plan.len(), 1);
    assert_eq!(plan[0].page, PageNo::first());
    assert_eq!(plan[0].marks.len(), 2);
    match &plan[0].marks[0] {
        MarkPlan::Lines { kind, bounds, quads: written } => {
            assert_eq!(*kind, AnnotKind::Highlight);
            assert_eq!(*written, quads);
            assert_eq!(*bounds, (c(0.0), c(2.0), c(8.0), c(22.0)));
        }
        other => panic!("unexpected {other:?}"),
    }
    match &plan[0].marks[1] {
        MarkPlan::Note { left, top, text } => {
            assert_eq!((*left, *top), (c(1.0), c(4.0)));
            assert_eq!(text, "nota do teste");
        }
        other => panic!("unexpected {other:?}"),
    }
}

#[test]
fn save_copy_without_annotations_keeps_the_document() {
    assert!(plan_copy(&Vec::new(), 5).unwrap().is_empty());
}

#[test]
fn save_copy_rejects_page_outside_the_document() {
    let err = plan_copy(&vec![mark(1, 2, AnnotKind::Highlight, Vec::new(), "")], 2).unwrap_err();
    assert_eq!(err.0, "página da marcação fora do intervalo");
}

#[test]
fn empty_marks_are_passed_over_but_their_page_is_not() {
    let annotations = vec![
        mark(1, 1, AnnotKind::Underline, Vec::new(), ""),
        mark(2, 1, AnnotKind::Note, vec![rect(0.0, 0.0, 1.0, 1.0)], " \n"),
        mark(3, 3, AnnotKind::Strikeout, vec![rect(0.0, 0.0, 1.0, 1.0)], ""),
    ];
    let plan = plan_copy(&annotations, 4).unwrap();
    assert_eq!(plan.len(), 2);
    assert_eq!(plan[0].page, PageNo::from_index(1));
    assert!(plan[0].marks.is_empty());
    assert_eq!(plan[1].page, PageNo::from_index(3));
    assert_eq!(plan[1].marks.len(), 1);
}

fn bookmark(title: &str, page: Option<u32>, children: Vec<Bookmark>) -> Bookmark {
    Bookmark { title: Some(title.to_string()), page, children }
}

#[test]
fn outline_reads_nested_bookmarks_with_pages() {
    let roots = vec![
        bookmark("1. Identificação das partes", Some(0), Vec::new()),
        bookmark(
            "4. Preços e reajuste",
            Some(3),
            vec![
                bookmark("4.1 Reajuste anual", Some(99), Vec::new()),
                Bookmark { title: None, page: None, children: Vec::new() },
            ],
        ),
    ];
    let outline = outline_from(&roots, 4).expect("outline");
    assert_eq!(outline.items.len(), 2);
    assert_eq!(outline.items[0].title, "1. Identificação das partes");
    assert_eq!(outline.items[0].page, PageNo::first());
    assert!(outline.items[0].children.is_empty());
    let prices = &outline.items[1];
    assert_eq!(prices.page, PageNo::from_index(3));
    assert_eq!(prices.children.len(), 2);
    assert_eq!(prices.children[0].title, "4.1 Reajuste anual");
    assert_eq!(prices.children[0].page, PageNo::first());
    assert_eq!(prices.children[1].title, "");
}

#[test]
fn outline_is_none_for_pdf_without_bookmarks() {
    assert!(outline_from(&Vec::new(), 4).is_none());
}

#[test]
fn text_layers_compose_their_clusters() {
    let clusters = vec![
        ("e\u{301}".to_string(), rect(0.0, 0.0, 1.0, 1.0)),
        (String::new(), rect(1.0, 0.0, 2.0, 1.0)),
        ("x".to_string(), rect(2.0, 0.0, 3.0, 1.0)),
    ];
    let layer = text_layer_from(PageNo::from_index(2), &clusters);
    assert_eq!(layer.page, PageNo::from_index(2));
    assert_eq!(layer.plain, "\u{e9}x");
    assert_eq!(layer.glyphs.len(), 2);
    assert_eq!(layer.glyphs[0].cluster, "\u{e9}");
    assert_eq!(layer.glyphs[1].quad, rect(2.0, 0.0, 3.0, 1.0));
    assert!(text_layer_from(PageNo::first(), &Vec::new()).plain.is_empty());
    let apart = vec![
        ("e".to_string(), rect(0.0, 0.0, 1.0, 1.0)),
        ("\u{301}".to_string(), rect(0.0, 0.0, 1.0, 1.0)),
    ];
    let layer = text_layer_from(PageNo::first(), &apart);
    assert_eq!(layer.plain, "e\u{301}");
    assert_eq!(layer.glyphs.len(), 2);
}

#[test]
fn frameworks_path_points_at_bundle_lib() {
    let exe = "/Applications/TsuroPDF.app/Contents/MacOS/TsuroPDF";
    let got = frameworks_lib_path(exe, "libpdfium.dylib");
    assert_eq!(got, "/Applications/TsuroPDF.app/Contents/MacOS/../Frameworks/libpdfium.dylib");
    assert_eq!(file_name(&got).as_deref(), Some("libpdfium.dylib"));
}

#[test]
fn pdfium_candidates_stay_next_to_the_binary() {
    let got = pdfium_candidates_for("/opt/tsuro/bin/tsuro", "libpdfium.so");
    assert_eq!(got, vec!["/opt/tsuro/bin/../Frameworks/libpdfium.so", "/opt/tsuro/bin/libpdfium.so"]);
    assert!(got.iter().all(|p| p.starts_with('/')));
}
