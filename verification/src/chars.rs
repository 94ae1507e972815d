//! Small operations on names, taken character by character.

use vstd::prelude::*;

verus! {

/// The characters of `s`, one by one.
pub fn chars_of(s: &str) -> (chars: Vec<char>)
    ensures
        chars@ == s@,
{
    let mut chars: Vec<char> = Vec::new();
    for c in it: s.chars()
        invariant
            it.seq() == s@,
            chars@ == s@.take(it.index() as int),
    {
        proof {
            assert(s@.take(it.index() + 1) =~= s@.take(it.index() as int).push(c));
        }
        chars.push(c);
    }
    proof {
        assert(s@.take(s@.len() as int) =~= s@);
    }
    chars
}

/// Tells whether `text`, from position `from` on, is exactly `other`.
pub fn tail_is(text: &Vec<char>, from: usize, other: &Vec<char>) -> (answer: bool)
    requires
        from <= text@.len(),
    ensures
        answer == (text@.skip(from as int) == other@),
{
    if text.len() - from != other.len() {
        return false;
    }
    let mut i: usize = 0;
    while i < other.len()
        invariant
            from <= text.len(),
            text.len() - from == other.len(),
            i <= other.len(),
            forall|j: int| 0 <= j < i ==> text@[from + j] == other@[j],
        decreases other.len() - i,
    {
        if text[from + i] != other[i] {
            proof {
                assert(text@.skip(from as int)[i as int] != other@[i as int]);
            }
            return false;
        }
        i = i + 1;
    }
    proof {
        assert(text@.skip(from as int) =~= other@);
    }
    true
}

/// Tells whether `text` ends with `suffix`.
pub fn ends_with(text: &Vec<char>, suffix: &Vec<char>) -> (answer: bool)
    ensures
        answer == suffix@.is_suffix_of(text@),
{
    if suffix.len() > text.len() {
        return false;
    }
    tail_is(text, text.len() - suffix.len(), suffix)
}

/// Where the part of `text` after the last `mark` starts: 0 where `text` holds no `mark`.
pub open spec fn after_last(text: Seq<char>, mark: char) -> int
    decreases text.len(),
{
    if text.len() == 0 {
        0
    } else if text.last() == mark {
        text.len() as int
    } else {
        after_last(text.drop_last(), mark)
    }
}

/// No `mark` stands at or after `after_last`, and one stands just before it unless it is 0.
pub proof fn lemma_after_last(text: Seq<char>, mark: char)
    ensures
        0 <= after_last(text, mark) <= text.len(),
        forall|i: int| after_last(text, mark) <= i < text.len() ==> text[i] != mark,
        after_last(text, mark) > 0 ==> text[after_last(text, mark) - 1] == mark,
    decreases text.len(),
{
    if text.len() > 0 && text.last() != mark {
        let front = text.drop_last();
        lemma_after_last(front, mark);
        assert forall|i: int| after_last(text, mark) <= i < text.len() implies text[i] != mark by {
            if i < front.len() {
                assert(text[i] == front[i]);
            }
        }
    }
}

/// Finds the start of the part of `text` that follows the last `mark`.
pub fn find_after_last(text: &Vec<char>, mark: char) -> (start: usize)
    ensures
        start == after_last(text@, mark),
{
    let mut end: usize = text.len();
    proof {
        assert(text@.take(text@.len() as int) =~= text@);
    }
    while end > 0 && text[end - 1] != mark
        invariant
            end <= text@.len(),
            after_last(text@, mark) == after_last(text@.take(end as int), mark),
        decreases end,
    {
        proof {
            assert(text@.take(end as int).drop_last() =~= text@.take(end - 1));
        }
        end = end - 1;
    }
    end
}

/// The lower-case form of an ASCII capital letter; every other character as it is.
pub open spec fn ascii_lower(c: char) -> char {
    if 'A' <= c <= 'Z' {
        ((c as u32) + 32) as char
    } else {
        c
    }
}

/// `text` with its ASCII capital letters in lower case.
pub open spec fn ascii_lowered(text: Seq<char>) -> Seq<char> {
    text.map_values(|c: char| ascii_lower(c))
}

/// Tells whether `text`, from position `from` on, becomes `lower` when its ASCII capital
/// letters are put in lower case.
pub fn tail_lowers_to(text: &Vec<char>, from: usize, lower: &Vec<char>) -> (answer: bool)
    requires
        from <= text@.len(),
    ensures
        answer == (ascii_lowered(text@.skip(from as int)) == lower@),
{
    if text.len() - from != lower.len() {
        return false;
    }
    let mut i: usize = 0;
    while i < lower.len()
        invariant
            from <= text.len(),
            text.len() - from == lower.len(),
            i <= lower.len(),
            forall|j: int| 0 <= j < i ==> ascii_lower(text@[from + j]) == lower@[j],
        decreases lower.len() - i,
    {
        let c: char = text[from + i];
        let folded: char = if 'A' <= c && c <= 'Z' {
            ((c as u8) + 32) as char
        } else {
            c
        };
        if folded != lower[i] {
            proof {
                assert(ascii_lowered(text@.skip(from as int))[i as int] != lower@[i as int]);
            }
            return false;
        }
        i = i + 1;
    }
    proof {
        assert(ascii_lowered(text@.skip(from as int)) =~= lower@);
    }
    true
}

} // verus!
