use epub_count::discover::{is_epub_name, plan_entry, plan_path, PathAction, PathKind, WalkAction};
use std::path::Path;

#[test]
fn missing_path_is_reported() {
    assert_eq!(plan_path(PathKind::Missing, false), PathAction::ReportMissing);
    assert_eq!(plan_path(PathKind::Missing, true), PathAction::ReportMissing);
}

#[test]
fn directory_is_searched_only_on_request() {
    assert_eq!(plan_path(PathKind::Directory, true), PathAction::Walk);
    assert_eq!(plan_path(PathKind::Directory, false), PathAction::SkipDirectory);
}

#[test]
fn file_is_taken_with_or_without_walk() {
    assert_eq!(plan_path(PathKind::File, false), PathAction::Count);
    assert_eq!(plan_path(PathKind::File, true), PathAction::Count);
}

#[test]
fn other_kind_is_reported() {
    assert_eq!(plan_path(PathKind::Other, false), PathAction::ReportUnusable);
    assert_eq!(plan_path(PathKind::Other, true), PathAction::ReportUnusable);
}

#[test]
fn epub_name_ignores_ascii_case() {
    assert!(is_epub_name("book.epub"));
    assert!(is_epub_name("book.EPUB"));
    assert!(is_epub_name("book.EpUb"));
    assert!(is_epub_name("archive.tar.epub"));
    assert!(is_epub_name("书.epub"));
}

#[test]
fn epub_name_needs_the_whole_extension() {
    assert!(!is_epub_name("book.epub.txt"));
    assert!(!is_epub_name("book.epu"));
    assert!(!is_epub_name("book.epubs"));
    assert!(!is_epub_name("bookepub"));
    assert!(!is_epub_name("epub"));
    assert!(!is_epub_name("book."));
    assert!(!is_epub_name(""));
    assert!(!is_epub_name("book.\u{212A}pub"));
}

#[test]
fn epub_name_needs_something_before_the_dot() {
    assert!(!is_epub_name(".epub"));
    assert!(is_epub_name("..epub"));
    assert!(is_epub_name("a.epub"));
}

#[test]
fn epub_name_agrees_with_the_extension_of_a_path() {
    for name in [
        "a.epub", "a.EPUB", ".epub", "..epub", "a.b.epub", "a.epub.", "epub", "a.ePub", "a.txt",
        "a", ".hidden.epub", "x.epubx", "x.xepub", " .epub",
    ] {
        let by_path = Path::new(name)
            .extension()
            .map_or(false, |ext| ext.eq_ignore_ascii_case("epub"));
        assert_eq!(is_epub_name(name), by_path, "{}", name);
    }
}

#[test]
fn search_takes_books_and_enters_directories() {
    assert_eq!(plan_entry(false, true, "a.epub"), WalkAction::Collect);
    assert_eq!(plan_entry(true, false, "library"), WalkAction::Descend);
    assert_eq!(plan_entry(true, false, "folder.epub"), WalkAction::Descend);
    assert_eq!(plan_entry(false, true, "notes.txt"), WalkAction::Pass);
    assert_eq!(plan_entry(false, false, "a.epub"), WalkAction::Pass);
}
