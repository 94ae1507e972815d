use epub_count::markup::{html_word_count, MAX_MARKUP_BYTES};

#[test]
fn count_of_a_paragraph_leaves_out_tags_and_spaces() {
    assert_eq!(html_word_count("<p>  hello   world  </p>"), Some(10));
}

#[test]
fn count_reads_the_text_and_not_the_markup() {
    assert_eq!(html_word_count("<p>a</p>"), Some(1));
}

#[test]
fn count_of_empty_markup_is_zero() {
    assert_eq!(html_word_count(""), Some(0));
}

#[test]
fn count_leaves_out_comments_and_attributes() {
    assert_eq!(
        html_word_count("<div class=\"long name\"><!-- not text -->ab<br/>cd</div>"),
        Some(4)
    );
}

#[test]
fn count_takes_text_nodes_in_document_order() {
    let page = "<html><head><title>T</title></head><body><h1>One</h1><p>two <b>three</b></p></body></html>";
    assert_eq!(html_word_count(page), Some(12));
}

#[test]
fn count_resolves_character_references() {
    assert_eq!(html_word_count("<p>a&amp;b&nbsp;c&#x3000;d</p>"), Some(5));
}

#[test]
fn count_tolerates_malformed_markup() {
    assert_eq!(html_word_count("<p>open <b>bold <i>both</p> tail"), Some(16));
    assert_eq!(html_word_count("</p></div>text<"), Some(5));
}

#[test]
fn count_of_dense_text_is_exact() {
    assert_eq!(html_word_count("<p>他说：「你好，世界！」</p>"), Some(11));
}

#[test]
fn count_of_xhtml_with_declaration() {
    let page = "<?xml version=\"1.0\" encoding=\"utf-8\"?>\n<!DOCTYPE html>\n<html xmlns=\"http://www.w3.org/1999/xhtml\"><body>\n<p>Chapter 1</p>\n</body></html>";
    assert_eq!(html_word_count(page), Some(8));
}

#[test]
fn markup_at_the_limit_is_counted() {
    let mut page = String::from("<p>x</p>");
    page.push_str(&" ".repeat(MAX_MARKUP_BYTES - page.len()));
    assert_eq!(page.len(), MAX_MARKUP_BYTES);
    assert_eq!(html_word_count(&page), Some(1));
}

#[test]
fn markup_over_the_limit_is_refused() {
    let page = " ".repeat(MAX_MARKUP_BYTES + 1);
    assert_eq!(html_word_count(&page), None);
}
