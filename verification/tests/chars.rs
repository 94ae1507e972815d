use epub_count::chars::{chars_of, ends_with, find_after_last, tail_is, tail_lowers_to};

fn v(text: &str) -> Vec<char> {
    text.chars().collect()
}

#[test]
fn chars_of_gives_each_scalar_value() {
    assert_eq!(chars_of(""), Vec::<char>::new());
    assert_eq!(chars_of("a字😀"), vec!['a', '字', '😀']);
}

#[test]
fn tail_is_compares_from_a_position() {
    assert!(tail_is(&v("OEBPS/toc.html"), 6, &v("toc.html")));
    assert!(!tail_is(&v("OEBPS/toc.html"), 5, &v("toc.html")));
    assert!(!tail_is(&v("OEBPS/toc.html"), 6, &v("toc.htm")));
    assert!(!tail_is(&v("OEBPS/toc.html"), 6, &v("tic.html")));
    assert!(tail_is(&v("abc"), 3, &v("")));
    assert!(tail_is(&v("abc"), 0, &v("abc")));
}

#[test]
fn ends_with_takes_suffixes_only() {
    assert!(ends_with(&v("a.xhtml"), &v(".xhtml")));
    assert!(ends_with(&v(".xhtml"), &v(".xhtml")));
    assert!(ends_with(&v("abc"), &v("")));
    assert!(!ends_with(&v("xhtml"), &v(".xhtml")));
    assert!(!ends_with(&v("a.xhtml "), &v(".xhtml")));
    assert!(!ends_with(&v(""), &v("a")));
}

#[test]
fn find_after_last_gives_the_start_of_the_last_part() {
    assert_eq!(find_after_last(&v("a/b/c"), '/'), 4);
    assert_eq!(find_after_last(&v("abc"), '/'), 0);
    assert_eq!(find_after_last(&v("abc/"), '/'), 4);
    assert_eq!(find_after_last(&v("/abc"), '/'), 1);
    assert_eq!(find_after_last(&v(""), '/'), 0);
    assert_eq!(find_after_last(&v("a.b.c"), '.'), 4);
}

#[test]
fn tail_lowers_to_folds_ascii_letters_only() {
    assert!(tail_lowers_to(&v("a.EpUb"), 2, &v("epub")));
    assert!(tail_lowers_to(&v("a.epub"), 2, &v("epub")));
    assert!(!tail_lowers_to(&v("a.epub"), 2, &v("EPUB")));
    assert!(!tail_lowers_to(&v("a.\u{212A}"), 2, &v("k")));
    assert!(!tail_lowers_to(&v("a.É"), 2, &v("é")));
    assert!(tail_lowers_to(&v("AZ[@`{"), 0, &v("az[@`{")));
}
