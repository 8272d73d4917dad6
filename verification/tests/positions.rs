//! Where documents were left.

use tsuro::page::Coord;
use tsuro::positions::{
    decode_entry, encode_entry, escape_path, find_position, mtime_matches, read_positions, record_position,
    save_positions, unescape_path, DocPosition, StoredEntry, ZoomText, LEGACY_MTIME_SECS_MAX, MAX_POSITIONS,
};
use tsuro::state::{ViewMode, Zoom, ZoomFactor};

fn c(value: f32) -> Coord {
    let bits = (value.to_bits() & 0x7fff_ffff) as i32;
    if value.is_sign_negative() {
        Coord(-bits)
    } else {
        Coord(bits)
    }
}

fn pos(page: u32) -> DocPosition {
    DocPosition { page, zoom: Zoom::Width, mode: ViewMode::Single, size: 10, mtime: 20 }
}

fn factors(entries: &Vec<(String, DocPosition)>) -> Vec<String> {
    entries
        .iter()
        .map(|(_, pos)| match pos.zoom {
            Zoom::Manual(z) => f32::from_bits(z.get().0 as u32).to_string(),
            _ => String::new(),
        })
        .collect()
}

fn factor(entry: &StoredEntry) -> Option<Coord> {
    match &entry.zoom {
        ZoomText::Manual(text) => text.parse::<f32>().ok().map(c),
        _ => None,
    }
}

#[test]
fn missing_or_garbage_reads_empty() {
    assert!(read_positions("").is_empty());
    assert!(read_positions("lixo\n1\twidth\n").is_empty());
}

#[test]
fn roundtrip_and_lru_cap() {
    let mut entries = Vec::new();
    for i in 0..(MAX_POSITIONS as u32 + 5) {
        entries = record_position(entries, format!("/doc/{i}.pdf"), pos(i));
    }
    assert_eq!(entries.len(), MAX_POSITIONS);
    assert_eq!(entries[0].0, format!("/doc/{}.pdf", MAX_POSITIONS + 4));
    entries = record_position(entries, "/doc/0.pdf".to_string(), pos(99));
    assert_eq!(entries.len(), MAX_POSITIONS);
    assert_eq!(entries[0].1.page, 99);
    let body = save_positions(&entries, &factors(&entries));
    let back = read_positions(&body);
    assert_eq!(back.len(), MAX_POSITIONS);
    assert_eq!(back[0].page, 99);
}

#[test]
fn recording_again_moves_to_the_top() {
    let mut entries = Vec::new();
    entries = record_position(entries, "/a.pdf".to_string(), pos(1));
    entries = record_position(entries, "/b.pdf".to_string(), pos(2));
    entries = record_position(entries, "/a.pdf".to_string(), pos(3));
    assert_eq!(entries.len(), 2);
    assert_eq!(entries[0].0, "/a.pdf");
    assert_eq!(entries[0].1.page, 3);
    assert_eq!(entries[1].0, "/b.pdf");
}

#[test]
fn zoom_path_and_mode_roundtrip() {
    let tricky = "/tmp/a\tb\\c.pdf".to_string();
    let entries = record_position(
        Vec::new(),
        tricky.clone(),
        DocPosition {
            page: 3,
            zoom: Zoom::Manual(ZoomFactor::new(c(1.5))),
            mode: ViewMode::Continuous,
            size: 7,
            mtime: 8,
        },
    );
    let body = save_positions(&entries, &factors(&entries));
    let back = read_positions(&body);
    assert_eq!(back.len(), 1);
    assert_eq!(back[0].path, tricky);
    let stored = back[0].position(factor(&back[0]));
    assert_eq!(stored.page, 3);
    assert!(matches!(stored.zoom, Zoom::Manual(_)));
    assert_eq!(stored.zoom, Zoom::Manual(ZoomFactor(c(1.5))));
    assert_eq!(stored.mode, ViewMode::Continuous);
    assert_eq!(stored, entries[0].1);
}

#[test]
fn legacy_five_field_line_reads_as_single() {
    let back = read_positions("12\tpage\t99\t7\t/tmp/velho.pdf\n");
    assert_eq!(back.len(), 1);
    assert_eq!(back[0].path, "/tmp/velho.pdf");
    let stored = back[0].position(factor(&back[0]));
    assert_eq!(stored.page, 12);
    assert!(matches!(stored.zoom, Zoom::Page));
    assert_eq!(stored.mode, ViewMode::Single);
    assert_eq!(stored.size, 99);
    assert_eq!(stored.mtime, 7);
}

#[test]
fn stale_identity_is_rejected() {
    let pdf = "/tmp/stale.pdf";
    let entries = vec![(
        pdf.to_string(),
        DocPosition { page: 5, zoom: Zoom::Page, mode: ViewMode::Continuous, size: 10, mtime: 33 },
    )];
    assert_eq!(find_position(&entries, pdf, Some((10, 33))).map(|p| p.page), Some(5));
    assert!(find_position(&entries, pdf, Some((16, 34))).is_none());
    assert!(find_position(&entries, pdf, None).is_none());
    assert!(find_position(&entries, "/tmp/other.pdf", Some((10, 33))).is_none());
}

#[test]
fn same_size_edit_inside_one_second_changes_identity() {
    let secs = 1_790_305_504u64;
    let first = (4u64, secs * 1_000_000_000 + 157_899_200);
    let second = (4u64, secs * 1_000_000_000 + 161_899_200);
    let entries = vec![(
        "/tmp/same.pdf".to_string(),
        DocPosition { page: 2, zoom: Zoom::Width, mode: ViewMode::Single, size: first.0, mtime: first.1 },
    )];
    assert_eq!(find_position(&entries, "/tmp/same.pdf", Some(first)).map(|p| p.page), Some(2));
    assert!(find_position(&entries, "/tmp/same.pdf", Some(second)).is_none());
}

#[test]
fn legacy_second_mtime_matches_unchanged_file() {
    let secs = 1_790_305_504u64;
    assert!(secs < LEGACY_MTIME_SECS_MAX);
    let entries = vec![(
        "/tmp/old.pdf".to_string(),
        DocPosition { page: 4, zoom: Zoom::Page, mode: ViewMode::Single, size: 4, mtime: secs },
    )];
    let identity = Some((4, secs * 1_000_000_000 + 157_899_200));
    assert_eq!(find_position(&entries, "/tmp/old.pdf", identity).map(|p| p.page), Some(4));
    assert!(!mtime_matches(secs, (secs + 1) * 1_000_000_000));
    assert!(mtime_matches(u64::MAX, u64::MAX));
}

#[test]
fn escaped_paths_read_back() {
    for path in ["/plain", "/t\tab", "/n\new", "\\", "/a\\tb", "\\n\\\\"] {
        let escaped = escape_path(path);
        assert!(!escaped.contains('\t') && !escaped.contains('\n'));
        assert_eq!(unescape_path(&escaped), path);
    }
    assert_eq!(escape_path("/a\tb\\c"), "/a\\tb\\\\c");
    assert_eq!(unescape_path("x\\"), "x\\");
    assert_eq!(unescape_path("\\q"), "q");
}

#[test]
fn lines_read_back_and_bad_ones_do_not() {
    let line = encode_entry("/x.pdf", &pos(6), "");
    assert_eq!(line, "6\twidth\t10\t20\tsingle\t/x.pdf");
    let entry = decode_entry(&line).expect("line");
    assert_eq!(entry.path, "/x.pdf");
    assert_eq!(entry.position(None), pos(6));
    assert!(decode_entry("x\twidth\t10\t20\tsingle\t/x.pdf").is_none());
    assert!(decode_entry("6\twidth\t-1\t20\tsingle\t/x.pdf").is_none());
    assert!(decode_entry("6\twidth\t10\t20\tsingle\t").is_none());
    assert!(decode_entry("6\twidth\t10\t20\tsingle\ta\tb").is_none());
    let odd = decode_entry("6\tmanual:abc\t10\t20\tother\t/x.pdf").expect("line");
    assert_eq!(odd.position(None).zoom, Zoom::Width);
    assert_eq!(odd.mode, ViewMode::Single);
    let infinite = odd.position(Some(c(f32::INFINITY)));
    assert_eq!(infinite.zoom, Zoom::Width);
    assert_eq!(odd.position(Some(c(99.0))).zoom, Zoom::Manual(ZoomFactor(c(8.0))));
}

#[test]
fn carriage_returns_before_line_breaks_are_dropped() {
    let back = read_positions("1\tpage\t2\t3\tsingle\t/a.pdf\r\n4\twidth\t5\t6\tcontinuous\t/b.pdf");
    assert_eq!(back.len(), 2);
    assert_eq!(back[0].path, "/a.pdf");
    assert_eq!(back[1].path, "/b.pdf");
    assert_eq!(back[1].mode, ViewMode::Continuous);
}

#[test]
fn documents_are_found_however_their_path_is_written() {
    let entries = record_position(Vec::new(), "/a//b.pdf".to_string(), pos(1));
    let entries = record_position(entries, "/a/b.pdf".to_string(), pos(2));
    assert_eq!(entries.len(), 1);
    assert_eq!(find_position(&entries, "/a/./b.pdf", Some((10, 20))).map(|p| p.page), Some(2));
    assert_eq!(find_position(&entries, "/a/c.pdf", Some((10, 20))), None);
}

#[test]
fn lines_have_six_fields() {
    let entries = vec![("/a\tb\nc.pdf".to_string(), pos(3))];
    let body = save_positions(&entries, &factors(&entries));
    let line = body.lines().next().unwrap();
    assert_eq!(body.lines().count(), 1);
    assert_eq!(line.split('\t').count(), 6);
    let stored: StoredEntry = decode_entry(line).unwrap();
    assert_eq!((stored.path.as_str(), stored.position(None)), ("/a\tb\nc.pdf", pos(3)));
}
