//! Reading an archive: which entries hold narrative markup, and their text.

use crate::chars::{after_last, chars_of, ends_with, find_after_last, tail_is};
use crate::markup::MAX_MARKUP_BYTES;
use vstd::prelude::*;
use vstd::utf8::{decode_utf8, valid_utf8};

verus! {

/// The archive reader of the `zip` crate. Nothing inside it is visible here.
#[verifier::external_type_specification]
#[verifier::external_body]
#[verifier::reject_recursive_types(R)]
pub struct ExZipArchive<R>(zip::ZipArchive<R>);

/// The in-memory reader of the standard library that the archive reader reads from.
#[verifier::external_type_specification]
#[verifier::external_body]
#[verifier::reject_recursive_types(T)]
pub struct ExCursor<T>(std::io::Cursor<T>);

/// The error of the `zip` crate.
#[verifier::external_type_specification]
#[verifier::external_body]
pub struct ExZipError(zip::result::ZipError);

/// The error of the standard library for bytes that are not UTF-8.
#[verifier::external_type_specification]
#[verifier::external_body]
pub struct ExFromUtf8Error(std::string::FromUtf8Error);

/// What `zip::ZipArchive::new` makes of a file's bytes: nothing where they are no
/// archive; else the names of the entries, in the order of the archive's directory, and
/// for each entry the bytes that reading it to the end gives, or nothing where reading
/// it fails.
pub uninterp spec fn archive_directory(bytes: Seq<u8>) -> Option<
    (Seq<Seq<char>>, Seq<Option<Seq<u8>>>),
>;

/// The names of the entries of an open archive, in the order of its directory.
pub uninterp spec fn entry_names(archive: zip::ZipArchive<std::io::Cursor<&[u8]>>) -> Seq<
    Seq<char>,
>;

/// For each entry of an open archive, the bytes that reading it to the end gives, or
/// nothing where reading it fails.
pub uninterp spec fn entry_payloads(archive: zip::ZipArchive<std::io::Cursor<&[u8]>>) -> Seq<
    Option<Seq<u8>>,
>;

/// Opens the archive held in `bytes` with `zip::ZipArchive::new`, on a
/// `std::io::Cursor`. It fails exactly where the bytes are no archive; what the open
/// archive holds depends on the bytes alone; it has one payload for each name.
#[verifier::external_body]
fn open_archive(bytes: &[u8]) -> (opened: Result<
    zip::ZipArchive<std::io::Cursor<&[u8]>>,
    zip::result::ZipError,
>)
    ensures
        match opened {
            Ok(archive) => archive_directory(bytes@) == Some(
                (entry_names(archive), entry_payloads(archive)),
            ) && entry_names(archive).len() == entry_payloads(archive).len(),
            Err(_) => archive_directory(bytes@) is None,
        },
{
    zip::ZipArchive::new(std::io::Cursor::new(bytes))
}

/// The number of entries, from `zip::ZipArchive::len`.
#[verifier::external_body]
fn entry_count(archive: &zip::ZipArchive<std::io::Cursor<&[u8]>>) -> (count: usize)
    ensures
        count == entry_names(*archive).len(),
{
    archive.len()
}

/// The name of entry `index`, from `zip::ZipArchive::name_for_index`, which has a name
/// for every index below the number of entries.
#[verifier::external_body]
fn entry_name(archive: &zip::ZipArchive<std::io::Cursor<&[u8]>>, index: usize) -> (name: String)
    requires
        index < entry_names(*archive).len(),
    ensures
        name@ == entry_names(*archive)[index as int],
{
    archive.name_for_index(index).unwrap_or_default().to_string()
}

/// Opens entry `index` with `zip::ZipArchive::by_index` and reads it to the end with
/// `std::io::Read::read_to_end`. Either step may fail; the bytes are those that the
/// archive holds for the entry, and the archive holds afterwards what it held before.
#[verifier::external_body]
fn entry_payload(archive: &mut zip::ZipArchive<std::io::Cursor<&[u8]>>, index: usize) -> (payload:
    Result<Vec<u8>, zip::result::ZipError>)
    requires
        index < entry_payloads(*old(archive)).len(),
    ensures
        entry_names(*final(archive)) == entry_names(*old(archive)),
        entry_payloads(*final(archive)) == entry_payloads(*old(archive)),
        match payload {
            Ok(bytes) => entry_payloads(*old(archive))[index as int] == Some(bytes@),
            Err(_) => entry_payloads(*old(archive))[index as int] is None,
        },
{
    let mut bytes = Vec::new();
    std::io::Read::read_to_end(&mut archive.by_index(index)?, &mut bytes)?;
    Ok(bytes)
}

/// `String::from_utf8` succeeds exactly on valid UTF-8, and then gives the text that the
/// bytes encode.
pub assume_specification[ String::from_utf8 ](vec: Vec<u8>) -> (decoded: Result<
    String,
    std::string::FromUtf8Error,
>)
    ensures
        decoded is Ok <==> valid_utf8(vec@),
        decoded matches Ok(text) ==> text@ == decode_utf8(vec@),
;

/// The archive's bytes do not make up a valid container.
#[derive(Clone, Copy, Debug, PartialEq, Eq)]
pub struct ArchiveFormatError;

/// What was read from one archive.
#[derive(Debug, PartialEq, Eq)]
pub struct ArchiveContents {
    /// The text of each entry that holds narrative markup and could be decoded, in the
    /// order of the archive's directory.
    pub documents: Vec<String>,
    /// The names of the entries that hold narrative markup and could not be decoded.
    pub skipped: Vec<String>,
}

/// The texts of a list of strings.
pub open spec fn texts(strings: Seq<String>) -> Seq<Seq<char>> {
    strings.map_values(|s: String| s@)
}

/// The part of an entry's name after the last `/`.
pub open spec fn base_name(name: Seq<char>) -> Seq<char> {
    name.skip(after_last(name, '/'))
}

/// The policy on entries: narrative markup is in the entries whose name ends in `.xhtml`
/// or `.html`, but for the table of contents, `toc.xhtml` or `toc.html` in any directory.
pub open spec fn content_name(name: Seq<char>) -> bool {
    &&& ".xhtml"@.is_suffix_of(name) || ".html"@.is_suffix_of(name)
    &&& base_name(name) != "toc.xhtml"@
    &&& base_name(name) != "toc.html"@
}

/// Tells whether a payload can be decoded to a document: it was read, it is no longer
/// than the markup parser takes, and it is valid UTF-8.
pub open spec fn decodable(payload: Option<Seq<u8>>) -> bool {
    &&& payload is Some
    &&& payload->0.len() <= MAX_MARKUP_BYTES
    &&& valid_utf8(payload->0)
}

/// What a payload that was read, or was not, holds.
pub open spec fn payload_view(payload: Option<Vec<u8>>) -> Option<Seq<u8>> {
    match payload {
        Some(bytes) => Some(bytes@),
        None => None,
    }
}

/// The documents of an archive: the decoded payloads of the entries that the policy
/// takes and that can be decoded, in the order of the entries.
pub open spec fn documents(names: Seq<Seq<char>>, payloads: Seq<Option<Seq<u8>>>) -> Seq<
    Seq<char>,
>
    decreases names.len(),
{
    if names.len() == 0 || payloads.len() == 0 {
        Seq::empty()
    } else {
        let before = documents(names.drop_last(), payloads.drop_last());
        if content_name(names.last()) && decodable(payloads.last()) {
            before.push(decode_utf8(payloads.last()->0))
        } else {
            before
        }
    }
}

/// The names of the entries that the policy takes and that cannot be decoded, in the
/// order of the entries.
pub open spec fn skipped(names: Seq<Seq<char>>, payloads: Seq<Option<Seq<u8>>>) -> Seq<Seq<char>>
    decreases names.len(),
{
    if names.len() == 0 || payloads.len() == 0 {
        Seq::empty()
    } else {
        let before = skipped(names.drop_last(), payloads.drop_last());
        if content_name(names.last()) && !decodable(payloads.last()) {
            before.push(names.last())
        } else {
            before
        }
    }
}

/// Tells whether the entry called `name` holds narrative markup.
pub fn is_content_entry(name: &str) -> (answer: bool)
    ensures
        answer == content_name(name@),
{
    let chars = chars_of(name);
    let xhtml = chars_of(".xhtml");
    let html = chars_of(".html");
    if !(ends_with(&chars, &xhtml) || ends_with(&chars, &html)) {
        return false;
    }
    let start = find_after_last(&chars, '/');
    proof {
        crate::chars::lemma_after_last(chars@, '/');
    }
    let toc_xhtml = chars_of("toc.xhtml");
    let toc_html = chars_of("toc.html");
    !tail_is(&chars, start, &toc_xhtml) && !tail_is(&chars, start, &toc_html)
}

/// Turns the bytes of an entry into a document, where they are no longer than the markup
/// parser takes and are valid UTF-8.
pub fn decode_document(payload: Vec<u8>) -> (document: Option<String>)
    ensures
        document is Some <==> decodable(Some(payload@)),
        document matches Some(text) ==> text@ == decode_utf8(payload@),
{
    if payload.len() > MAX_MARKUP_BYTES {
        return None;
    }
    match String::from_utf8(payload) {
        Ok(text) => Some(text),
        Err(_) => None,
    }
}

impl ArchiveContents {
    /// The contents of an archive of which no entry was seen yet.
    pub fn new() -> (contents: ArchiveContents)
        ensures
            contents.documents@.len() == 0,
            contents.skipped@.len() == 0,
    {
        ArchiveContents { documents: Vec::new(), skipped: Vec::new() }
    }

    /// Takes in an entry that holds narrative markup: `payload` is what reading it gave.
    /// Its text joins the documents where the payload can be decoded; else its name is
    /// put down.
    pub fn record(&mut self, name: String, payload: Option<Vec<u8>>)
        ensures
            decodable(payload_view(payload)) ==> texts(final(self).documents@) == texts(
                old(self).documents@,
            ).push(decode_utf8(payload->0@)) && final(self).skipped == old(self).skipped,
            !decodable(payload_view(payload)) ==> texts(final(self).skipped@) == texts(
                old(self).skipped@,
            ).push(name@) && final(self).documents == old(self).documents,
    {
        let document = match payload {
            Some(bytes) => decode_document(bytes),
            None => None,
        };
        match document {
            Some(text) => {
                proof {
                    assert(texts(self.documents@.push(text)) =~= texts(self.documents@).push(
                        text@,
                    ));
                }
                self.documents.push(text);
            },
            None => {
                proof {
                    assert(texts(self.skipped@.push(name)) =~= texts(self.skipped@).push(name@));
                }
                self.skipped.push(name);
            },
        }
    }
}

/// Reads the documents of the archive held in `bytes`. Fails exactly where the bytes are
/// no archive. An entry that the policy takes and that cannot be read or decoded is left
/// out of the documents, and its name is put down.
pub fn zip_xhtml_read(bytes: &[u8]) -> (read: Result<ArchiveContents, ArchiveFormatError>)
    ensures
        match read {
            Ok(contents) => archive_directory(bytes@) matches Some(directory) && texts(
                contents.documents@,
            ) == documents(directory.0, directory.1) && texts(contents.skipped@) == skipped(
                directory.0,
                directory.1,
            ),
            Err(_) => archive_directory(bytes@) is None,
        },
{
    let mut archive = match open_archive(bytes) {
        Ok(archive) => archive,
        Err(_) => {
            return Err(ArchiveFormatError);
        },
    };
    let ghost names = entry_names(archive);
    let ghost payloads = entry_payloads(archive);
    let count = entry_count(&archive);
    let mut contents = ArchiveContents::new();
    let mut index: usize = 0;
    proof {
        assert(texts(contents.documents@) =~= Seq::empty());
        assert(texts(contents.skipped@) =~= Seq::empty());
    }
    while index < count
        invariant
            index <= count,
            count == names.len(),
            names.len() == payloads.len(),
            entry_names(archive) == names,
            entry_payloads(archive) == payloads,
            texts(contents.documents@) == documents(
                names.take(index as int),
                payloads.take(index as int),
            ),
            texts(contents.skipped@) == skipped(
                names.take(index as int),
                payloads.take(index as int),
            ),
        decreases count - index,
    {
        proof {
            assert(names.take(index + 1).drop_last() =~= names.take(index as int));
            assert(payloads.take(index + 1).drop_last() =~= payloads.take(index as int));
        }
        let name = entry_name(&archive, index);
        if is_content_entry(name.as_str()) {
            let payload = match entry_payload(&mut archive, index) {
                Ok(bytes) => Some(bytes),
                Err(_) => None,
            };
            contents.record(name, payload);
        }
        index = index + 1;
    }
    proof {
        assert(names.take(count as int) =~= names);
        assert(payloads.take(count as int) =~= payloads);
    }
    Ok(contents)
}

/// The table of contents is not narrative markup, in whatever directory it stands.
pub proof fn lemma_table_of_contents_is_left_out(directory: Seq<char>)
    requires
        directory.len() == 0 || directory.last() == '/',
    ensures
        !content_name(directory + "toc.xhtml"@),
        !content_name(directory + "toc.html"@),
{
    reveal_strlit("toc.xhtml");
    reveal_strlit("toc.html");
    lemma_base_name_after_directory(directory, "toc.xhtml"@);
    lemma_base_name_after_directory(directory, "toc.html"@);
}

/// The base name of a name made of a directory and a part without `/` is that part.
pub proof fn lemma_base_name_after_directory(directory: Seq<char>, file: Seq<char>)
    requires
        directory.len() == 0 || directory.last() == '/',
        forall|i: int| 0 <= i < file.len() ==> file[i] != '/',
    ensures
        base_name(directory + file) == file,
    decreases file.len(),
{
    let name = directory + file;
    if file.len() == 0 {
        assert(name =~= directory);
        assert(name.skip(name.len() as int) =~= file);
    } else {
        lemma_base_name_after_directory(directory, file.drop_last());
        assert(name.drop_last() =~= directory + file.drop_last());
        assert(name.skip(directory.len() as int) =~= file);
        assert((directory + file.drop_last()).skip(directory.len() as int) =~= file.drop_last());
        crate::chars::lemma_after_last(name.drop_last(), '/');
        assert(after_last(name.drop_last(), '/') == directory.len()) by {
            let at = after_last(name.drop_last(), '/');
            if at > directory.len() {
                assert(name.drop_last()[at - 1] == file[at - 1 - directory.len()]);
            }
            if at < directory.len() {
                assert(name.drop_last()[directory.len() - 1] == directory.last());
            }
        }
    }
}

/// An entry that the policy does not take adds nothing, whatever it holds: with any
/// other payload in its place the documents are the same, and so are the names put down.
pub proof fn lemma_entry_outside_policy_adds_nothing(
    names: Seq<Seq<char>>,
    payloads: Seq<Option<Seq<u8>>>,
    index: int,
    payload: Option<Seq<u8>>,
)
    requires
        names.len() == payloads.len(),
        0 <= index < names.len(),
        !content_name(names[index]),
    ensures
        documents(names, payloads.update(index, payload)) == documents(names, payloads),
        skipped(names, payloads.update(index, payload)) == skipped(names, payloads),
    decreases names.len(),
{
    let changed = payloads.update(index, payload);
    if index == names.len() - 1 {
        assert(changed.drop_last() =~= payloads.drop_last());
    } else {
        lemma_entry_outside_policy_adds_nothing(
            names.drop_last(),
            payloads.drop_last(),
            index,
            payload,
        );
        assert(changed.drop_last() =~= payloads.drop_last().update(index, payload));
    }
}

} // verus!
