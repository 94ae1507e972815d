//! Counts the characters of the narrative text held in e-book archives.
//!
//! An archive is read entry by entry ([`archive`]); the entries that hold narrative
//! markup are parsed and the characters of their text that are not whitespace are
//! counted ([`markup`], [`text`]); the counts of one archive are added up ([`book`]).
//! Many archives are shared out among workers in contiguous chunks ([`schedule`]), and
//! the workers' results are added up to a grand total that does not depend on how the
//! work was shared out ([`tally`]). [`discover`] holds the rules by which paths become
//! tasks.

pub mod archive;
pub mod book;
pub mod chars;
pub mod discover;
pub mod markup;
pub mod schedule;
pub mod tally;
pub mod text;
