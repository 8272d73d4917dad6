//! Paths: how they are written, what they are called, and where they lead.

use tsuro::browse::{EmptyState, Theme};
use tsuro::native::{display, is_readable, windows_path, ESCAPE};
use tsuro::page::{Coord, MediaBox, PageNo, TextLayer};
use tsuro::paths::{file_name, is_pdf, is_same_file, is_same_place, join_path, parent_of, suggested_marked_name};
use tsuro::ready::Ready;
use tsuro::state::{OpenSource, PdfAnalysis};
use tsuro::view::recent_rows;

fn on_drive(rest: &str) -> String {
    windows_path("C:", rest)
}

fn with_byte(before: &str, byte: u32, after: &str) -> String {
    let mut text = before.to_string();
    text.push(ESCAPE);
    text.push(char::from_u32(0x100 + byte).unwrap());
    text.push_str(after);
    text
}

fn ready_at(path: String) -> Ready {
    let media = MediaBox { width: Coord(0x4400_0000), height: Coord(0x4400_0000) };
    let text = TextLayer { page: PageNo::first(), plain: String::new(), glyphs: Vec::new() };
    let analysis = PdfAnalysis { signatures: Vec::new() };
    Ready::from_parts(OpenSource::Path(path), Ok((1, 1)), Ok((media, text)), Ok(analysis)).unwrap()
}

#[test]
fn windows_paths_have_names_and_folders() {
    let file = on_drive("\\docs\\ata.v1.PDF");
    assert_eq!(file_name(&file), Some("ata.v1.PDF".to_string()));
    assert_eq!(parent_of(&file), Some(on_drive("\\docs")));
    assert_eq!(parent_of(&on_drive("\\docs")), Some(on_drive("\\")));
    assert_eq!(parent_of(&on_drive("\\")), None);
    assert_eq!(file_name(&on_drive("\\")), None);
    assert_eq!(parent_of(&on_drive("f.pdf")), Some(on_drive("")));
    assert_eq!(parent_of(&on_drive("")), None);
    assert_eq!(file_name(&on_drive("/a/b\\")), Some("b".to_string()));
    assert!(is_pdf(&file));
    assert_eq!(suggested_marked_name(&file), "ata.v1 (marcado).pdf");
    assert_eq!(file_name("a\\b.pdf"), Some("a\\b.pdf".to_string()));
    assert_eq!(file_name("C:/b.pdf"), Some("b.pdf".to_string()));
    assert_eq!(parent_of("C:/b.pdf"), Some("C:".to_string()));
}

#[test]
fn files_at_the_root_of_a_drive_show_no_folder() {
    let rows = recent_rows(&vec![on_drive("\\f.pdf"), on_drive("\\docs\\f.pdf"), "/docs/f.pdf".to_string()]);
    let cards = &rows[0].cards;
    assert_eq!(cards[0].folder, None);
    assert_eq!(cards[0].name, "f.pdf");
    assert_eq!(cards[1].folder.as_deref(), Some("docs"));
    assert_eq!(cards[2].folder.as_deref(), Some("docs"));
    let bare = recent_rows(&vec![on_drive("\\")]);
    assert_eq!(bare[0].cards[0].name, "C:\\");
}

#[test]
fn windows_paths_are_compared_by_their_parts() {
    assert!(is_same_place(&on_drive("\\a\\b"), &windows_path("c:", "/a//./b/")));
    assert!(!is_same_place(&on_drive("\\a\\b"), &windows_path("D:", "\\a\\b")));
    assert!(!is_same_place(&on_drive("\\a"), &on_drive("a")));
    assert!(!is_same_place(&on_drive("\\a"), &on_drive("\\A")));
    let share = "\\\\server\\share";
    assert!(is_same_place(&windows_path(share, ""), &windows_path("//server/share", "\\")));
    assert!(!is_same_place(&windows_path(share, ""), &windows_path(share, "\\a")));
    assert!(is_same_file(&on_drive("\\a.pdf"), &windows_path("c:", "\\a.pdf"), &None, &None));
    assert!(!is_same_place("/a", &windows_path("", "/a")));
}

#[test]
fn verbatim_paths_are_taken_as_they_are() {
    let drive = "\\\\?\\C:";
    assert_eq!(file_name(&windows_path(drive, "\\a/b")), Some("a/b".to_string()));
    assert_eq!(parent_of(&windows_path(drive, "\\a\\.\\b")), Some(windows_path(drive, "\\a\\.")));
    assert_eq!(file_name(&windows_path(drive, "\\a\\.")), None);
    assert!(!is_same_place(&windows_path(drive, "\\a\\.\\b"), &windows_path(drive, "\\a\\b")));
    assert!(is_same_place(&windows_path(drive, "\\a"), &windows_path("\\\\?\\c:", "\\a")));
}

#[test]
fn paths_are_shown_as_the_system_writes_them() {
    assert_eq!(display(&on_drive("\\docs\\f.pdf")), "C:\\docs\\f.pdf");
    assert_eq!(display("/docs/f.pdf"), "/docs/f.pdf");
    let odd = with_byte("/docs/a", 0xff, "b.pdf");
    assert_eq!(display(&odd), "/docs/a\u{fffd}b.pdf");
    assert!(!is_readable(&odd));
    assert!(is_readable(&on_drive("\\docs")));
    let twice: String = [ESCAPE, ESCAPE].iter().collect();
    assert_eq!(display(&twice), ESCAPE.to_string());
    assert!(is_readable(&twice));
    let mut empty = EmptyState::start(Vec::new(), Theme::Dark, 0, Coord(0x3f80_0000));
    empty.cwd = Some(on_drive("\\docs"));
    assert_eq!(empty.path_label("Locais"), "C:\\docs");
    empty.cwd = Some(on_drive("\\"));
    assert_eq!(empty.parent(), Some(None));
}

#[test]
fn print_jobs_are_named_after_names_that_are_text() {
    assert_eq!(ready_at(on_drive("\\docs\\ata.pdf")).print_job_title(), "ata");
    assert_eq!(ready_at(with_byte("/docs/a", 0xff, ".pdf")).print_job_title(), "documento");
    assert_eq!(suggested_marked_name(&with_byte("/docs/a", 0xff, ".pdf")), "a\u{fffd} (marcado).pdf");
    assert_eq!(ready_at("/".to_string()).print_job_title(), "documento");
}

#[test]
fn paths_are_joined_as_the_system_does() {
    assert_eq!(join_path("/opt", "lib.so"), "/opt/lib.so");
    assert_eq!(join_path("/opt/", "lib.so"), "/opt/lib.so");
    assert_eq!(join_path("", "lib.so"), "lib.so");
    assert_eq!(join_path(&on_drive("\\opt"), "a.dll"), on_drive("\\opt\\a.dll"));
    assert_eq!(join_path(&on_drive(""), "a.dll"), on_drive("a.dll"));
    let share = "\\\\server\\share";
    assert_eq!(join_path(&windows_path(share, ""), "a.dll"), windows_path(share, "\\a.dll"));
}
