//! The character-counting policy: which characters are whitespace, and how many remain
//! once they are taken out.

use vstd::prelude::*;
use vstd::utf8::encode_utf8;

verus! {

/// The characters that carry the Unicode `White_Space` property.
pub open spec fn white_space(c: char) -> bool {
    let code = c as u32;
    ||| 0x09 <= code <= 0x0D
    ||| code == 0x20
    ||| code == 0x85
    ||| code == 0xA0
    ||| code == 0x1680
    ||| 0x2000 <= code <= 0x200A
    ||| code == 0x2028
    ||| code == 0x2029
    ||| code == 0x202F
    ||| code == 0x205F
    ||| code == 0x3000
}

/// The text that is left when every whitespace character is taken out.
pub open spec fn without_white_space(text: Seq<char>) -> Seq<char> {
    text.filter(|c: char| !white_space(c))
}

/// The number of characters of `text` that are not whitespace.
pub open spec fn char_count(text: Seq<char>) -> nat {
    without_white_space(text).len()
}

/// The length of the longest prefix of `text` that holds no whitespace.
pub open spec fn word_len(text: Seq<char>) -> nat
    decreases text.len(),
{
    if text.len() == 0 || white_space(text[0]) {
        0
    } else {
        1 + word_len(text.skip(1))
    }
}

/// The maximal runs of characters other than whitespace, in the order in which they
/// stand in `text`.
pub open spec fn words(text: Seq<char>) -> Seq<Seq<char>>
    decreases text.len(),
{
    if text.len() == 0 {
        Seq::empty()
    } else if white_space(text[0]) {
        words(text.skip(1))
    } else {
        let n = word_len(text) as int;
        // A word starts here, so `n` is at least 1 and at most the length of the text:
        // the second branch is never taken. The test shows that the rest is shorter.
        if 0 < n <= text.len() {
            seq![text.take(n)] + words(text.skip(n))
        } else {
            Seq::empty()
        }
    }
}

/// A word: at least one character, none of them whitespace.
pub open spec fn is_word(text: Seq<char>) -> bool {
    &&& text.len() > 0
    &&& forall|i: int| 0 <= i < text.len() ==> !white_space(#[trigger] text[i])
}

/// Tells whether `c` separates words.
pub fn is_white_space(c: char) -> (answer: bool)
    ensures
        answer == white_space(c),
{
    let code: u32 = c as u32;
    (0x09 <= code && code <= 0x0D) || code == 0x20 || code == 0x85 || code == 0xA0 || code == 0x1680
        || (0x2000 <= code && code <= 0x200A) || code == 0x2028 || code == 0x2029 || code == 0x202F
        || code == 0x205F || code == 0x3000
}

/// Counts the characters of `text` that are not whitespace.
pub fn count_chars(text: &str) -> (count: u64)
    ensures
        count == char_count(text@),
{
    let byte_len: usize = text.as_bytes().len();
    proof {
        lemma_encoding_is_no_shorter(text@);
    }
    let mut count: u64 = 0;
    for c in it: text.chars()
        invariant
            it.seq() == text@,
            text@.len() <= byte_len,
            count == char_count(text@.take(it.index() as int)),
            count <= it.index(),
    {
        proof {
            let seen = text@.take(it.index() as int);
            assert(text@.take(it.index() + 1) =~= seen.push(c));
            seen.lemma_filter_push(c, |c: char| !white_space(c));
        }
        if !is_white_space(c) {
            count = count + 1;
        }
    }
    proof {
        assert(text@.take(text@.len() as int) =~= text@);
    }
    count
}

/// A text has at most as many characters as its UTF-8 form has bytes.
pub proof fn lemma_encoding_is_no_shorter(text: Seq<char>)
    ensures
        text.len() <= encode_utf8(text).len(),
    decreases text.len(),
{
    if text.len() > 0 {
        lemma_encoding_is_no_shorter(text.drop_first());
    }
}

/// A word holds at least one character unless the text starts with whitespace or is
/// empty, never reaches past the end of the text, holds no whitespace, and ends where
/// the text ends or whitespace follows.
pub proof fn lemma_word_len(text: Seq<char>)
    ensures
        word_len(text) <= text.len(),
        word_len(text) == 0 <==> text.len() == 0 || white_space(text[0]),
        forall|i: int| 0 <= i < word_len(text) ==> !white_space(#[trigger] text[i]),
        word_len(text) < text.len() ==> white_space(text[word_len(text) as int]),
    decreases text.len(),
{
    if text.len() == 0 || white_space(text[0]) {
    } else {
        let rest = text.skip(1);
        lemma_word_len(rest);
        assert forall|i: int| 0 <= i < word_len(text) implies !white_space(#[trigger] text[i]) by {
            if i > 0 {
                assert(text[i] == rest[i - 1]);
            }
        }
        if word_len(text) < text.len() {
            assert(text[word_len(text) as int] == rest[word_len(rest) as int]);
        }
    }
}

/// Splitting on whitespace and joining the words again with nothing between them takes
/// out the whitespace and nothing else: the count is the length of the joined words.
pub proof fn lemma_words_joined(text: Seq<char>)
    ensures
        words(text).flatten() == without_white_space(text),
        char_count(text) == words(text).flatten().len(),
    decreases text.len(),
{
    let keep = |c: char| !white_space(c);
    if text.len() == 0 {
        reveal(Seq::filter);
    } else if white_space(text[0]) {
        let rest = text.skip(1);
        lemma_words_joined(rest);
        assert(text =~= seq![text[0]] + rest);
        Seq::filter_distributes_over_add(seq![text[0]], rest, keep);
        assert(seq![text[0]].filter(keep) =~= Seq::<char>::empty()) by {
            Seq::<char>::empty().lemma_filter_push(text[0], keep);
            assert(Seq::<char>::empty().push(text[0]) =~= seq![text[0]]);
            reveal(Seq::filter);
        }
        assert(Seq::<char>::empty() + rest.filter(keep) =~= rest.filter(keep));
    } else {
        lemma_word_len(text);
        let n = word_len(text) as int;
        let word = text.take(n);
        let rest = text.skip(n);
        lemma_words_joined(rest);
        assert(text =~= word + rest);
        Seq::filter_distributes_over_add(word, rest, keep);
        lemma_keeps_word(word);
        vstd::seq_lib::lemma_flatten_concat(seq![word], words(rest));
        seq![word].lemma_flatten_one_element();
    }
}

/// A text without whitespace is left as it is.
pub proof fn lemma_keeps_word(text: Seq<char>)
    requires
        forall|i: int| 0 <= i < text.len() ==> !white_space(#[trigger] text[i]),
    ensures
        without_white_space(text) == text,
    decreases text.len(),
{
    reveal(Seq::filter);
    if text.len() > 0 {
        lemma_keeps_word(text.drop_last());
        assert(text.drop_last().push(text.last()) =~= text);
    }
}

/// What is left after the whitespace is taken out holds no whitespace.
pub proof fn lemma_nothing_left_to_remove(text: Seq<char>)
    ensures
        forall|i: int|
            0 <= i < without_white_space(text).len() ==> !white_space(
                #[trigger] without_white_space(text)[i],
            ),
{
    let keep = |c: char| !white_space(c);
    assert forall|i: int| 0 <= i < text.filter(keep).len() implies !white_space(
        #[trigger] text.filter(keep)[i],
    ) by {
        text.lemma_filter_pred(keep, i);
    }
}

/// Taking the whitespace out a second time changes nothing, neither the text nor the
/// count.
pub proof fn lemma_removal_is_idempotent(text: Seq<char>)
    ensures
        without_white_space(without_white_space(text)) == without_white_space(text),
        char_count(without_white_space(text)) == char_count(text),
{
    lemma_nothing_left_to_remove(text);
    lemma_keeps_word(without_white_space(text));
}

/// Every word holds at least one character and no whitespace.
pub proof fn lemma_words_hold_no_white_space(text: Seq<char>)
    ensures
        forall|k: int| 0 <= k < words(text).len() ==> is_word(#[trigger] words(text)[k]),
    decreases text.len(),
{
    if text.len() == 0 {
    } else if white_space(text[0]) {
        lemma_words_hold_no_white_space(text.skip(1));
        assert(words(text) == words(text.skip(1)));
    } else {
        lemma_word_len(text);
        let n = word_len(text) as int;
        lemma_words_hold_no_white_space(text.skip(n));
        let tail = words(text.skip(n));
        assert(words(text) == seq![text.take(n)] + tail);
        assert(is_word(text.take(n)));
        assert forall|k: int| 0 <= k < words(text).len() implies is_word(
            #[trigger] words(text)[k],
        ) by {
            if k > 0 {
                assert(words(text)[k] == tail[k - 1]);
            }
        }
    }
}

} // verus!
