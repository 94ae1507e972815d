//! From the markup of one document to the number of characters of its text.

use crate::text::{char_count, count_chars};
use vstd::prelude::*;
use vstd::utf8::encode_utf8;

verus! {

/// The longest markup, in bytes of UTF-8, that is handed to the parser. The parser keeps
/// each piece of text in a buffer of at most 2^31 bytes, and a piece of text may take
/// three times the room of the markup it was read from.
pub const MAX_MARKUP_BYTES: usize = 0x2000_0000;

/// The text nodes below the root element of the document that `markup` is parsed to, one
/// after the other in document order. Parsing follows the HTML standard and never fails:
/// markup that breaks the rules is repaired as the standard says.
pub uninterp spec fn markup_text(markup: Seq<char>) -> Seq<char>;

/// Tells whether `markup` is short enough to be parsed.
pub open spec fn parsable(markup: Seq<char>) -> bool {
    encode_utf8(markup).len() <= MAX_MARKUP_BYTES
}

/// The count of a document: the number of characters of its text that are not
/// whitespace. A document that is too long to be parsed has none.
pub open spec fn markup_count(markup: Seq<char>) -> Option<nat> {
    if parsable(markup) {
        Some(char_count(markup_text(markup)))
    } else {
        None
    }
}

/// Parses `markup` as an HTML document with `scraper::Html::parse_document`, takes the
/// root element with `root_element`, and joins what its iterator `text` yields. The
/// result is named, not described: it is the same for the same markup. The bound keeps
/// the document within what the parser's buffers hold.
#[verifier::external_body]
fn document_text(markup: &str) -> (text: String)
    requires
        parsable(markup@),
    ensures
        text@ == markup_text(markup@),
{
    scraper::Html::parse_document(markup).root_element().text().collect()
}

/// Counts the characters other than whitespace in the text of the document `markup`,
/// which is short enough to be parsed.
pub(crate) fn count_markup(markup: &str) -> (count: u64)
    requires
        parsable(markup@),
    ensures
        count == char_count(markup_text(markup@)),
{
    let text = document_text(markup);
    count_chars(text.as_str())
}

/// Counts the characters other than whitespace in the text of the document `markup`.
/// Gives `None` exactly where the markup is longer than `MAX_MARKUP_BYTES`.
pub fn html_word_count(markup: &str) -> (count: Option<u64>)
    ensures
        count matches Some(n) ==> markup_count(markup@) == Some(n as nat),
        count is None ==> markup_count(markup@) is None,
{
    if markup.as_bytes().len() > MAX_MARKUP_BYTES {
        None
    } else {
        Some(count_markup(markup))
    }
}

} // verus!
