//! The count of one book: the sum over the documents of its archive.

use crate::archive::{
    archive_directory, decodable, documents, skipped, texts, zip_xhtml_read, ArchiveFormatError,
};
use crate::markup::{count_markup, markup_text, parsable};
use crate::tally::saturated;
use crate::text::char_count;
use vstd::prelude::*;
use vstd::utf8::decode_utf8_encode_utf8;

verus! {

/// What one archive came to.
#[derive(Debug, PartialEq, Eq)]
pub struct FileCount {
    /// The characters other than whitespace in all its documents, at most `u64::MAX`.
    pub count: u64,
    /// The names of the entries that hold narrative markup and could not be decoded.
    pub skipped: Vec<String>,
}

/// The sum of the counts of the documents `markups`.
pub open spec fn document_total(markups: Seq<Seq<char>>) -> nat
    decreases markups.len(),
{
    if markups.len() == 0 {
        0
    } else {
        document_total(markups.drop_last()) + char_count(markup_text(markups.last()))
    }
}

/// Counts the characters other than whitespace in the narrative text of the archive held
/// in `bytes`: the sum over its documents, which stops at `u64::MAX`. Fails exactly
/// where the bytes are no archive.
pub fn get_epub_word_count(bytes: &[u8]) -> (counted: Result<FileCount, ArchiveFormatError>)
    ensures
        match counted {
            Ok(file) => archive_directory(bytes@) matches Some(directory) && file.count
                == saturated(document_total(documents(directory.0, directory.1))) && texts(
                file.skipped@,
            ) == skipped(directory.0, directory.1),
            Err(_) => archive_directory(bytes@) is None,
        },
{
    let contents = match zip_xhtml_read(bytes) {
        Ok(contents) => contents,
        Err(error) => {
            return Err(error);
        },
    };
    let ghost directory = archive_directory(bytes@)->0;
    let ghost markups = texts(contents.documents@);
    proof {
        lemma_documents_are_parsable(directory.0, directory.1);
    }
    let mut count: u64 = 0;
    let mut index: usize = 0;
    while index < contents.documents.len()
        invariant
            index <= contents.documents.len(),
            markups == texts(contents.documents@),
            forall|i: int| 0 <= i < markups.len() ==> parsable(#[trigger] markups[i]),
            count == saturated(document_total(markups.take(index as int))),
        decreases contents.documents.len() - index,
    {
        proof {
            assert(markups.take(index + 1).drop_last() =~= markups.take(index as int));
            assert(markups[index as int] == contents.documents@[index as int]@);
        }
        count = count.saturating_add(count_markup(contents.documents[index].as_str()));
        index = index + 1;
    }
    proof {
        assert(markups.take(markups.len() as int) =~= markups);
    }
    Ok(FileCount { count, skipped: contents.skipped })
}

/// Every document of an archive is short enough to be parsed.
pub proof fn lemma_documents_are_parsable(names: Seq<Seq<char>>, payloads: Seq<Option<Seq<u8>>>)
    ensures
        forall|i: int|
            0 <= i < documents(names, payloads).len() ==> parsable(
                #[trigger] documents(names, payloads)[i],
            ),
    decreases names.len(),
{
    if names.len() == 0 || payloads.len() == 0 {
    } else {
        let before = documents(names.drop_last(), payloads.drop_last());
        lemma_documents_are_parsable(names.drop_last(), payloads.drop_last());
        if decodable(payloads.last()) {
            decode_utf8_encode_utf8(payloads.last()->0);
        }
        assert forall|i: int| 0 <= i < documents(names, payloads).len() implies parsable(
            #[trigger] documents(names, payloads)[i],
        ) by {
            if i < before.len() {
                assert(documents(names, payloads)[i] == before[i]);
            }
        }
    }
}

} // verus!
