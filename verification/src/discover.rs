//! Which paths become tasks: the decisions taken while the candidate files are found.

use crate::chars::{
    after_last, ascii_lowered, chars_of, find_after_last, lemma_after_last, tail_lowers_to,
};
use vstd::prelude::*;

verus! {

/// What was found at a path given on the command line.
#[derive(Clone, Copy, Debug, PartialEq, Eq, Structural)]
pub enum PathKind {
    /// Nothing exists there.
    Missing,
    /// A directory.
    Directory,
    /// A regular file.
    File,
    /// Something else.
    Other,
}

/// What is done with a path given on the command line.
#[derive(Clone, Copy, Debug, PartialEq, Eq, Structural)]
pub enum PathAction {
    /// Warn that the path does not exist, and go on.
    ReportMissing,
    /// Search the directory for books.
    Walk,
    /// Pass over the directory in silence.
    SkipDirectory,
    /// Take the file as a task.
    Count,
    /// Warn that the path cannot be opened as a regular file, and go on.
    ReportUnusable,
}

/// What is done with an entry met while a directory is searched.
#[derive(Clone, Copy, Debug, PartialEq, Eq, Structural)]
pub enum WalkAction {
    /// Search the directory.
    Descend,
    /// Take the file as a task.
    Collect,
    /// Leave the entry aside.
    Pass,
}

/// The rule for a path given on the command line: a directory is searched only where
/// that was asked for with `walk`; a regular file is taken whatever its name.
pub open spec fn path_action(kind: PathKind, walk: bool) -> PathAction {
    match kind {
        PathKind::Missing => PathAction::ReportMissing,
        PathKind::Directory => if walk {
            PathAction::Walk
        } else {
            PathAction::SkipDirectory
        },
        PathKind::File => PathAction::Count,
        PathKind::Other => PathAction::ReportUnusable,
    }
}

/// The name of a book: something, then a dot, then `epub` in letters of either case.
pub open spec fn epub_name(file_name: Seq<char>) -> bool {
    &&& after_last(file_name, '.') >= 2
    &&& ascii_lowered(file_name.skip(after_last(file_name, '.'))) == "epub"@
}

/// The rule for an entry met in a search: regular files with the name of a book are
/// taken, directories are searched, all else is left aside.
pub open spec fn walk_action(is_dir: bool, is_file: bool, file_name: Seq<char>) -> WalkAction {
    if is_file && epub_name(file_name) {
        WalkAction::Collect
    } else if is_dir {
        WalkAction::Descend
    } else {
        WalkAction::Pass
    }
}

/// Decides what is done with a path given on the command line.
pub fn plan_path(kind: PathKind, walk: bool) -> (action: PathAction)
    ensures
        action == path_action(kind, walk),
{
    match kind {
        PathKind::Missing => PathAction::ReportMissing,
        PathKind::Directory => if walk {
            PathAction::Walk
        } else {
            PathAction::SkipDirectory
        },
        PathKind::File => PathAction::Count,
        PathKind::Other => PathAction::ReportUnusable,
    }
}

/// Tells whether `file_name`, the last component of a path, is the name of a book.
pub fn is_epub_name(file_name: &str) -> (answer: bool)
    ensures
        answer == epub_name(file_name@),
{
    let chars = chars_of(file_name);
    let start = find_after_last(&chars, '.');
    proof {
        lemma_after_last(chars@, '.');
    }
    if start < 2 {
        return false;
    }
    let epub = chars_of("epub");
    tail_lowers_to(&chars, start, &epub)
}

/// Decides what is done with an entry met while a directory is searched.
pub fn plan_entry(is_dir: bool, is_file: bool, file_name: &str) -> (action: WalkAction)
    ensures
        action == walk_action(is_dir, is_file, file_name@),
{
    if is_file && is_epub_name(file_name) {
        WalkAction::Collect
    } else if is_dir {
        WalkAction::Descend
    } else {
        WalkAction::Pass
    }
}

} // verus!
