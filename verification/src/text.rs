//! Splitting text into words and folding them to lower case.

use vstd::prelude::*;

verus! {

/// Whether `c` is white space, as `char::is_whitespace` tells it.
pub uninterp spec fn whitespace(c: char) -> bool;

/// The lower-case form of `text`, as `str::to_lowercase` gives it.
pub uninterp spec fn lowercase(text: Seq<char>) -> Seq<char>;

/// `char::is_whitespace`: whether the character is one of those that
/// Unicode marks as `White_Space`.
#[verifier::external_body]
fn is_whitespace(c: char) -> (white: bool)
    ensures
        white == whitespace(c),
{
    c.is_whitespace()
}

/// `str::to_lowercase`: the lower-case equivalent of the text, as a new
/// string.
#[verifier::external_body]
fn to_lowercase(text: &str) -> (lower: String)
    ensures
        lower@ == lowercase(text@),
{
    text.to_lowercase()
}

/// `String::push` appends one character to the string.
pub assume_specification[ String::push ](text: &mut String, c: char)
    ensures
        final(text)@ == old(text)@.push(c),
;

/// The words of `text`: its longest runs of characters that are not white
/// space, in the order in which they stand in the text.
pub open spec fn words(text: Seq<char>) -> Seq<Seq<char>>
    decreases text.len(),
{
    if text.len() == 0 {
        Seq::empty()
    } else if whitespace(text.last()) {
        words(text.drop_last())
    } else if text.len() >= 2 && !whitespace(text[text.len() - 2]) {
        let before = words(text.drop_last());
        before.drop_last().push(before.last().push(text.last()))
    } else {
        words(text.drop_last()).push(seq![text.last()])
    }
}

/// The words of `text`, each in lower case.
pub open spec fn lowercase_words(text: Seq<char>) -> Seq<Seq<char>> {
    words(text).map_values(|word: Seq<char>| lowercase(word))
}

/// No word is empty, and no word holds white space.
pub proof fn lemma_words_hold_no_whitespace(text: Seq<char>)
    ensures
        forall|i: int| 0 <= i < words(text).len() ==> (#[trigger] words(text)[i]).len() > 0,
        forall|i: int, j: int|
            0 <= i < words(text).len() && 0 <= j < words(text)[i].len() ==> !whitespace(
                #[trigger] words(text)[i][j],
            ),
    decreases text.len(),
{
    if text.len() > 0 {
        let before = words(text.drop_last());
        lemma_words_hold_no_whitespace(text.drop_last());
        if !whitespace(text.last()) {
            if text.len() >= 2 && !whitespace(text[text.len() - 2]) {
                lemma_open_word(text.drop_last());
                let grown = before.last().push(text.last());
                assert forall|i: int, j: int|
                    0 <= i < words(text).len() && 0 <= j < words(text)[i].len() implies !whitespace(
                    #[trigger] words(text)[i][j],
                ) by {
                    if i < before.len() - 1 {
                        assert(words(text)[i] == before[i]);
                    } else if j < before.last().len() {
                        assert(grown[j] == before[before.len() - 1][j]);
                    }
                }
                assert forall|i: int| 0 <= i < words(text).len() implies (#[trigger] words(
                    text,
                )[i]).len() > 0 by {
                    if i < before.len() - 1 {
                        assert(words(text)[i] == before[i]);
                    }
                }
            } else {
                assert forall|i: int, j: int|
                    0 <= i < words(text).len() && 0 <= j < words(text)[i].len() implies !whitespace(
                    #[trigger] words(text)[i][j],
                ) by {
                    if i < before.len() {
                        assert(words(text)[i] == before[i]);
                    }
                }
                assert forall|i: int| 0 <= i < words(text).len() implies (#[trigger] words(
                    text,
                )[i]).len() > 0 by {
                    if i < before.len() {
                        assert(words(text)[i] == before[i]);
                    }
                }
            }
        }
    }
}

/// Where a text ends in a character that is not white space, it has a last
/// word, and that word is not empty.
proof fn lemma_open_word(text: Seq<char>)
    requires
        text.len() > 0,
        !whitespace(text.last()),
    ensures
        words(text).len() > 0,
        words(text).last().len() > 0,
    decreases text.len(),
{
    if text.len() >= 2 && !whitespace(text[text.len() - 2]) {
        lemma_open_word(text.drop_last());
    }
}

/// When the lower-case form of the last word is appended to those of the
/// words before it, the lower-case forms of all the words are there.
proof fn lemma_last_word_closed(raw: Seq<Seq<char>>, closed: Seq<Seq<char>>, found: Seq<String>)
    requires
        raw.len() > 0,
        closed == raw.drop_last().map_values(|word: Seq<char>| lowercase(word)),
        found.len() > 0,
        found.drop_last().map_values(|word: String| word@) == closed,
        found.last()@ == lowercase(raw.last()),
    ensures
        found.map_values(|word: String| word@) == raw.map_values(|word: Seq<char>| lowercase(word)),
{
    let views = found.map_values(|word: String| word@);
    let lowered = raw.map_values(|word: Seq<char>| lowercase(word));
    assert(found.drop_last().map_values(|word: String| word@).len() == found.len() - 1);
    assert(raw.drop_last().map_values(|word: Seq<char>| lowercase(word)).len() == raw.len() - 1);
    assert forall|i: int| 0 <= i < views.len() implies views[i] == lowered[i] by {
        if i < views.len() - 1 {
            assert(views[i] == found.drop_last().map_values(|word: String| word@)[i]);
            assert(lowered[i] == raw.drop_last().map_values(|word: Seq<char>| lowercase(word))[i]);
        }
    }
    assert(views =~= lowered);
}

/// Splits `text` at white space and folds each word to lower case.
pub fn split_lowercase(text: &str) -> (found: Vec<String>)
    ensures
        found@.map_values(|word: String| word@) == lowercase_words(text@),
{
    let mut found: Vec<String> = Vec::new();
    let mut current = String::new();
    let mut in_word = false;
    let ghost mut seen: Seq<char> = Seq::empty();
    for c in iter: text.chars()
        invariant
            seen == text@.take(iter.index() as int),
            iter.seq() == text@,
            in_word <==> seen.len() > 0 && !whitespace(seen.last()),
            !in_word ==> current@.len() == 0 && found@.map_values(|word: String| word@)
                == lowercase_words(seen),
            in_word ==> words(seen).len() > 0 && current@ == words(seen).last() && found@.map_values(
                |word: String| word@,
            ) == words(seen).drop_last().map_values(|word: Seq<char>| lowercase(word)),
    {
        let ghost before = seen;
        proof {
            seen = seen.push(c);
            assert(seen.drop_last() == before);
            assert(seen == text@.take(iter.index() + 1));
            if !whitespace(c) {
                lemma_open_word(seen);
            }
        }
        if is_whitespace(c) {
            if in_word {
                let ghost closed = found@;
                found.push(to_lowercase(current.as_str()));
                proof {
                    assert(found@.drop_last() == closed);
                    lemma_last_word_closed(
                        words(before),
                        closed.map_values(|word: String| word@),
                        found@,
                    );
                }
                current = String::new();
                in_word = false;
            }
        } else {
            current.push(c);
            assert(words(seen).drop_last() == if in_word {
                words(before).drop_last()
            } else {
                words(before)
            });
            in_word = true;
        }
    }
    assert(seen == text@);
    if in_word {
        let ghost closed = found@;
        found.push(to_lowercase(current.as_str()));
        proof {
            assert(found@.drop_last() == closed);
            lemma_last_word_closed(words(seen), closed.map_values(|word: String| word@), found@);
        }
    }
    found
}

} // verus!
