//! Text layers, and searching in them.

use tsuro::find;
use tsuro::numbers::{number_text, parse_u32, parse_u64, trim, trim_end};
use tsuro::page::{
    extend_range, glyph_byte_range, next_char_boundary, quad_for_range, quads_for_range_by_line, Coord, Glyph,
    PageNo, Point, Quad, Scale, TextLayer, TextRange,
};
use tsuro::search;

fn c(value: f32) -> Coord {
    let bits = (value.to_bits() & 0x7fff_ffff) as i32;
    if value.is_sign_negative() {
        Coord(-bits)
    } else {
        Coord(bits)
    }
}

fn f(value: Coord) -> f32 {
    let magnitude = f32::from_bits(value.0.unsigned_abs());
    if value.0 < 0 {
        -magnitude
    } else {
        magnitude
    }
}

fn rect(left: f32, bottom: f32, right: f32, top: f32) -> Quad {
    Quad::from_rect(c(left), c(bottom), c(right), c(top))
}

fn glyph(cluster: &str, quad: Quad) -> Glyph {
    Glyph { cluster: cluster.to_string(), quad }
}

fn layer(page: u32, plain: &str) -> TextLayer {
    TextLayer {
        page: PageNo::from_index(page),
        plain: plain.to_string(),
        glyphs: vec![glyph(plain, rect(0.0, 0.0, 10.0, 10.0))],
    }
}

fn distances(layer: &TextLayer, x: f32, y: f32) -> Vec<Coord> {
    let mut out = Vec::new();
    for g in &layer.glyphs {
        let (left, bottom, right, top) = g.quad.sides();
        let dx = if x < f(left) {
            f(left) - x
        } else if x > f(right) {
            x - f(right)
        } else {
            0.0
        };
        let dy = if y < f(bottom) {
            f(bottom) - y
        } else if y > f(top) {
            y - f(top)
        } else {
            0.0
        };
        out.push(c(dx * dx + dy * dy));
    }
    out
}

#[test]
fn measures_compare_as_numbers() {
    assert!(c(-2.0).is_below(c(-1.0)));
    assert!(c(-1.0).is_below(c(0.0)));
    assert!(c(0.5).is_below(c(1.5)));
    assert!(c(1.5).is_at_most(c(1.5)));
    assert!(!c(f32::NAN).is_number());
    assert!(!c(f32::NAN).is_below(c(1.0)));
    assert!(!c(f32::INFINITY).is_finite());
    assert_eq!(f(c(f32::NAN).lower(c(3.0))), 3.0);
    assert_eq!(f(c(-4.25).higher(c(2.0))), 2.0);
    assert!(c(7.0).is_equal(c(7.0)));
    assert!(!c(f32::NAN).is_equal(c(f32::NAN)));
}

#[test]
fn scale_is_kept_between_its_ends() {
    assert_eq!(Scale::from_factor(0).key(), 1);
    assert_eq!(Scale::from_factor(1500).key(), 1500);
    assert_eq!(Scale::from_factor(90_000).key(), 65_000);
    assert_eq!(Scale::from_factor(1500).factor(), 1500);
}

#[test]
fn page_numbers_keep_their_index() {
    assert_eq!(PageNo::first().index(), 0);
    assert_eq!(PageNo::from_index(7).index(), 7);
    assert_ne!(PageNo::from_index(7), PageNo::first());
}

#[test]
fn quads_contain_and_join() {
    let a = rect(0.0, 0.0, 10.0, 10.0);
    let b = rect(20.0, -5.0, 30.0, 5.0);
    assert!(a.contains(c(10.0), c(0.0)));
    assert!(!a.contains(c(10.5), c(0.0)));
    assert_eq!(a.union(b), rect(0.0, -5.0, 30.0, 10.0));
}

#[test]
fn hit_nearest_snaps_to_closest_glyph() {
    let layer = TextLayer {
        page: PageNo::first(),
        plain: "ab".to_string(),
        glyphs: vec![
            glyph("a", rect(0.0, 0.0, 10.0, 10.0)),
            glyph("b", rect(20.0, 0.0, 30.0, 10.0)),
        ],
    };
    assert_eq!(layer.hit_nearest(&distances(&layer, 5.0, 5.0)), Some(0));
    assert_eq!(layer.hit_nearest(&distances(&layer, 14.0, 5.0)), Some(0));
    assert_eq!(layer.hit_nearest(&distances(&layer, 16.0, 5.0)), Some(1));
    assert_eq!(layer.hit_nearest(&distances(&layer, 1000.0, -500.0)), Some(1));
    assert_eq!(layer.hit(Point { x: c(5.0), y: c(5.0) }), Some(0));
    assert_eq!(layer.hit(Point { x: c(14.0), y: c(5.0) }), None);
    let empty = TextLayer { page: PageNo::first(), plain: String::new(), glyphs: Vec::new() };
    assert_eq!(empty.hit_nearest(&distances(&empty, 0.0, 0.0)), None);
}

#[test]
fn slices_move_on_to_whole_characters() {
    let layer = layer(0, "ação");
    assert_eq!(layer.slice(TextRange { start: 0, end: 1 }), "a");
    assert_eq!(layer.slice(TextRange { start: 1, end: 2 }), "ç");
    assert_eq!(layer.slice(TextRange { start: 2, end: 100 }), "ão");
    assert_eq!(layer.slice(TextRange { start: 3, end: 3 }), "");
    assert_eq!(next_char_boundary("ação", 2), 3);
    assert_eq!(next_char_boundary("ação", 1), 1);
    assert_eq!(next_char_boundary("ação", 99), 6);
}

#[test]
fn glyph_bytes_follow_one_another() {
    let layer = TextLayer {
        page: PageNo::first(),
        plain: "çab".to_string(),
        glyphs: vec![
            glyph("ç", rect(0.0, 0.0, 1.0, 1.0)),
            glyph("a", rect(1.0, 0.0, 2.0, 1.0)),
            glyph("b", rect(2.0, 0.0, 3.0, 1.0)),
        ],
    };
    assert_eq!(glyph_byte_range(&layer, 0), (0, 2));
    assert_eq!(glyph_byte_range(&layer, 2), (3, 4));
    assert_eq!(glyph_byte_range(&layer, 3), (0, 0));
    assert_eq!(quad_for_range(&layer.glyphs, 2, 4), rect(1.0, 0.0, 3.0, 1.0));
    assert_eq!(quad_for_range(&layer.glyphs, 9, 10), rect(0.0, 0.0, 0.0, 0.0));
}

#[test]
fn quads_by_line_split_lines_and_columns() {
    let glyphs = vec![
        glyph("a", rect(0.0, 0.0, 10.0, 10.0)),
        glyph("b", rect(10.0, 0.0, 20.0, 10.0)),
        glyph("c", rect(0.0, 20.0, 10.0, 30.0)),
        glyph("d", rect(-20.0, 20.0, -10.0, 30.0)),
    ];
    let quads = quads_for_range_by_line(&glyphs, 0, 4);
    assert_eq!(quads.len(), 3);
    let top = quads[0].bbox();
    assert_eq!((f(top.0), f(top.1), f(top.2), f(top.3)), (0.0, 0.0, 20.0, 10.0));
    assert!(quads_for_range_by_line(&glyphs, 4, 4).is_empty());
}

#[test]
fn drag_back_shrinks_to_anchor() {
    let anchor = Some(TextRange { start: 10, end: 20 });
    assert_eq!(extend_range(anchor, (15, 25)), TextRange { start: 10, end: 25 });
    assert_eq!(extend_range(anchor, (0, 5)), TextRange { start: 0, end: 20 });
    assert_eq!(extend_range(anchor, (12, 13)), TextRange { start: 10, end: 20 });
    assert_eq!(extend_range(None, (4, 9)), TextRange { start: 4, end: 9 });
}

#[test]
fn search_search_keeps_portuguese_accents() {
    let pages = vec![Some(layer(0, "texto ação extra"))];
    let hits = search::Search::derive("ação", &pages);
    assert_eq!(hits.hits().len(), 1);
    let none = search::Search::derive("acao", &pages);
    assert!(none.hits().is_empty());
}

#[test]
fn search_lazy_search_skips_unloaded_pages() {
    let mut pages: Vec<Option<TextLayer>> = Vec::new();
    pages.push(Some(layer(0, "texto ação extra")));
    while pages.len() < 200 {
        pages.push(None);
    }
    let hits = search::Search::derive("ação", &pages);
    assert_eq!(hits.hits().len(), 1);
    assert_eq!(pages.len(), 200);
}

#[test]
fn search_search_many_unicode_matches_share_glyph_walk() {
    let mut glyphs = Vec::new();
    let mut plain = String::new();
    for _ in 0..50 {
        plain.push_str("ação ");
        glyphs.push(glyph("ação ", rect(0.0, 0.0, 10.0, 10.0)));
    }
    let layer = TextLayer { page: PageNo::first(), plain, glyphs };
    let hits = search::find_hits("ação", &layer);
    assert_eq!(hits.len(), 50);
}

fn double_a() -> TextLayer {
    TextLayer {
        page: PageNo::first(),
        plain: "aa".to_string(),
        glyphs: vec![
            glyph("a", rect(0.0, 0.0, 1.0, 1.0)),
            glyph("a", rect(1.0, 0.0, 2.0, 1.0)),
        ],
    }
}

#[test]
fn search_search_overlapping_ranges_keep_glyph_quads() {
    let hits = search::find_hits("aa", &double_a());
    assert_eq!(hits.len(), 1);
    assert!(f(hits[0].quad.x1) > 1.0);
}

#[test]
fn step_wraps_and_first_prev_goes_last() {
    let mut search = search::Search::derive("a", &vec![Some(layer(0, "a a a"))]);
    assert_eq!(search.hits().len(), 3);
    assert_eq!(search.current(), None);
    search.step(1);
    assert_eq!(search.current(), Some(0));
    search.step(1);
    assert_eq!(search.current(), Some(1));
    search.step(1);
    assert_eq!(search.current(), Some(2));
    search.step(1);
    assert_eq!(search.current(), Some(0));
    search.step(-1);
    assert_eq!(search.current(), Some(2));
    let mut fresh = search::Search::derive("a", &vec![Some(layer(0, "a a"))]);
    fresh.step(-1);
    assert_eq!(fresh.current(), Some(1));
    let mut empty = search::Search::derive("", &Vec::new());
    empty.step(1);
    assert_eq!(empty.current(), None);
}

#[test]
fn extend_page_preserves_current_hit() {
    let mut search = search::Search::derive("alvo", &vec![Some(layer(0, "nada aqui"))]);
    assert!(search.hits().is_empty());
    search.extend_page(&layer(1, "um alvo só"));
    assert_eq!(search.hits().len(), 1);
    search.step(1);
    assert_eq!(search.current(), Some(0));
    search.extend_page(&layer(0, "alvo no início"));
    assert_eq!(search.hits().len(), 2);
    assert_eq!(search.current(), Some(1));
    assert_eq!(search.current_hit().map(|hit| hit.page), Some(PageNo::from_index(1)));
    assert_eq!(search.query(), "alvo");
}

#[test]
fn decomposed_acute_keeps_x_quad_on_x() {
    let layer = TextLayer {
        page: PageNo::first(),
        plain: "e\u{301}x".to_string(),
        glyphs: vec![
            glyph("e", rect(0.0, 0.0, 10.0, 10.0)),
            glyph("\u{301}", rect(10.0, 0.0, 20.0, 10.0)),
            glyph("x", rect(20.0, 0.0, 30.0, 10.0)),
        ],
    };
    assert_eq!(layer.plain.len(), 4);
    let hits = search::find_hits("x", &layer);
    assert_eq!(hits.len(), 1);
    assert_eq!((f(hits[0].quad.x0), f(hits[0].quad.x1)), (20.0, 30.0));
}

#[test]
fn nfc_query_matches_nfd_text() {
    let layer = TextLayer {
        page: PageNo::first(),
        plain: "e\u{301}x".to_string(),
        glyphs: vec![glyph("e\u{301}x", rect(0.0, 0.0, 30.0, 10.0))],
    };
    let hits = search::find_hits("\u{e9}", &layer);
    assert_eq!(hits.len(), 1);
    assert_eq!(hits[0].range, TextRange { start: 0, end: 3 });
}

#[test]
fn nfd_query_matches_nfc_text() {
    let layer = TextLayer {
        page: PageNo::first(),
        plain: "\u{e9}x".to_string(),
        glyphs: vec![glyph("\u{e9}x", rect(0.0, 0.0, 30.0, 10.0))],
    };
    let hits = search::find_hits("e\u{301}", &layer);
    assert_eq!(hits.len(), 1);
}

#[test]
fn given_forms_are_searched_as_they_are() {
    let layer = layer(0, "ABCabc");
    let hits = search::find_hits_composed("bc", "ABCabc", &layer);
    assert_eq!(hits.len(), 2);
    assert_eq!(hits[0].range, TextRange { start: 1, end: 3 });
    assert_eq!(hits[1].range, TextRange { start: 4, end: 6 });
    assert!(search::find_hits_composed("", "ABCabc", &layer).is_empty());
}

#[test]
fn lowercase_may_take_more_characters() {
    let mapped = search::lower_plain_map("İx");
    assert_eq!(mapped.len(), 3);
    assert_eq!(mapped[0].lower, 'i');
    assert_eq!((mapped[0].byte_start, mapped[0].byte_end), (0, 2));
    assert_eq!((mapped[1].byte_start, mapped[1].byte_end), (0, 2));
    assert_eq!((mapped[2].byte_start, mapped[2].byte_end), (2, 3));
    assert_eq!(search::lower_plain_map("ÇA")[0].lower, 'ç');
}

#[test]
fn session_search_keeps_portuguese_accents() {
    let pages = vec![Some(layer(0, "texto ação extra"))];
    assert_eq!(find::Search::derive("ação", &pages).hits().len(), 1);
    assert_eq!(find::Search::derive("AÇÃO", &pages).hits().len(), 1);
    assert!(find::Search::derive("acao", &pages).hits().is_empty());
}

#[test]
fn session_lazy_search_skips_unloaded_pages() {
    let mut pages: Vec<Option<TextLayer>> = Vec::new();
    pages.push(Some(layer(0, "texto ação extra")));
    while pages.len() < 200 {
        pages.push(None);
    }
    let hits = find::Search::derive("ação", &pages);
    assert_eq!(hits.hits().len(), 1);
    assert_eq!(pages.len(), 200);
}

#[test]
fn session_search_many_unicode_matches_share_glyph_walk() {
    let mut glyphs = Vec::new();
    let mut plain = String::new();
    for _ in 0..50 {
        plain.push_str("ação ");
        glyphs.push(glyph("ação ", rect(0.0, 0.0, 10.0, 10.0)));
    }
    let layer = TextLayer { page: PageNo::first(), plain, glyphs };
    assert_eq!(find::Search::derive("ação", &vec![Some(layer)]).hits().len(), 50);
}

#[test]
fn session_search_overlapping_ranges_keep_glyph_quads() {
    let search = find::Search::derive("aa", &vec![Some(double_a())]);
    let hits = search.hits();
    assert_eq!(hits.len(), 1);
    assert!(f(hits[0].quad.x1) > 1.0);
}

#[test]
fn overlapping_matches_are_all_found() {
    let ranges = search::case_insensitive_byte_ranges("aAa", "aa");
    assert_eq!(ranges, vec![(0, 2), (1, 3)]);
    assert!(search::case_insensitive_byte_ranges("abc", "").is_empty());
    assert!(search::case_insensitive_byte_ranges("ab", "abc").is_empty());
}

#[test]
fn pages_that_come_late_are_searched_too() {
    let all = vec![Some(layer(0, "um alvo")), Some(layer(1, "alvo e alvo")), Some(layer(2, "alvo"))];
    let at_once = find::Search::derive("alvo", &all);
    let mut late = find::Search::derive("alvo", &vec![Some(layer(0, "um alvo")), None, Some(layer(2, "alvo"))]);
    assert_eq!(late.hits().len(), 2);
    late.extend_page(&layer(1, "alvo e alvo"));
    late.extend_page(&layer(1, "alvo e alvo"));
    assert_eq!(late.hits().len(), at_once.hits().len());
    for (a, b) in late.hits().iter().zip(at_once.hits().iter()) {
        assert_eq!(a, b);
    }
    assert_eq!(late.query(), "alvo");
    assert_eq!(at_once.hits()[1].page, PageNo::from_index(1));
}

#[test]
fn numbers_are_read_and_written() {
    assert_eq!(parse_u32("42"), Some(42));
    assert_eq!(parse_u32("+42"), Some(42));
    assert_eq!(parse_u32("4294967295"), Some(u32::MAX));
    assert_eq!(parse_u32("4294967296"), None);
    assert_eq!(parse_u32(""), None);
    assert_eq!(parse_u32("+"), None);
    assert_eq!(parse_u32("-1"), None);
    assert_eq!(parse_u32("1a"), None);
    assert_eq!(parse_u64("18446744073709551615"), Some(u64::MAX));
    assert_eq!(parse_u64("18446744073709551616"), None);
    assert_eq!(number_text(0), "0");
    assert_eq!(number_text(u64::MAX), "18446744073709551615");
    assert_eq!(trim("  a b\t\n"), "a b");
    assert_eq!(trim_end("  a\u{a0}\u{3000}"), "  a");
    assert_eq!(trim(" \u{2003} "), "");
}

#[test]
fn characters_that_compose_to_more_keep_their_bytes() {
    assert_eq!(search::case_insensitive_byte_ranges("\u{958}x", "x"), vec![(3, 4)]);
    assert_eq!(search::case_insensitive_byte_ranges("\u{958}x", "\u{958}"), vec![(0, 3)]);
    let apart = vec![Some(layer(0, "cafe\u{301}"))];
    assert_eq!(find::Search::derive("CAF\u{c9}", &apart).hits()[0].range, TextRange { start: 0, end: 6 });
    let mapped = search::lower_plain_map("q\u{307}\u{323}x");
    let bytes: Vec<(usize, usize)> = mapped.iter().map(|e| (e.byte_start, e.byte_end)).collect();
    assert_eq!(bytes, vec![(0, 1), (1, 5), (1, 5), (5, 6)]);
    assert_eq!(search::case_insensitive_byte_ranges("ae\u{301}b", "\u{c9}B"), vec![(1, 5)]);
}

#[test]
fn pages_that_come_twice_change_nothing() {
    let mut search = search::Search::derive("alvo", &vec![Some(layer(0, "um alvo"))]);
    search.extend_page(&layer(1, "alvo e alvo"));
    search.step(1);
    search.step(1);
    let ranges: Vec<TextRange> = search.hits().iter().map(|hit| hit.range).collect();
    let current = search.current();
    search.extend_page(&layer(1, "alvo e alvo"));
    assert_eq!(search.hits().iter().map(|hit| hit.range).collect::<Vec<TextRange>>(), ranges);
    assert_eq!(search.current(), current);
    assert_eq!(current, Some(1));
}

#[test]
fn glyph_bytes_cut_out_what_the_glyph_holds() {
    let layer = TextLayer {
        page: PageNo::first(),
        plain: "\u{e9}xy".to_string(),
        glyphs: vec![
            glyph("\u{e9}", rect(0.0, 0.0, 10.0, 10.0)),
            glyph("xy", rect(10.0, 0.0, 20.0, 10.0)),
        ],
    };
    for (i, glyph) in layer.glyphs.iter().enumerate() {
        let (start, end) = glyph_byte_range(&layer, i);
        assert_eq!(layer.slice(TextRange { start, end }), glyph.cluster);
    }
}

#[test]
fn pages_are_ordered_by_their_index() {
    let (p, q) = (PageNo::from_index(2), PageNo::from_index(7));
    assert!(p < q && q > p && p <= p && !(q < p));
    assert_eq!(p.max(q), q);
}

#[test]
fn given_letters_are_looked_for() {
    let letter = |lower: char, byte_start: usize, byte_end: usize| search::LowerChar { lower, byte_start, byte_end };
    let mapped = vec![letter('a', 0, 1), letter('i', 1, 3), letter('\u{307}', 1, 3), letter('a', 3, 4)];
    assert_eq!(search::scan(&mapped, &vec!['a']), vec![(0, 1), (3, 4)]);
    assert_eq!(search::scan(&mapped, &vec!['i', '\u{307}', 'a']), vec![(1, 4)]);
    assert!(search::scan(&mapped, &Vec::new()).is_empty());
}
