//! Title case: the first character of a word in upper case, the rest as it
//! stands.

use vstd::prelude::*;
use vstd::string::{StrSliceExecFns, StringExecFns};

verus! {

/// The upper-case mapping of a character as Unicode defines it: what
/// `char::to_uppercase` of the standard library yields. It is one character
/// or more, and the character itself where it has no upper-case mapping,
/// as a digit or a letter already in upper case has none.
pub uninterp spec fn uppercase_of(c: char) -> Seq<char>;

/// The characters that `char::to_uppercase` of the standard library yields
/// for `c`, collected into a string.
#[verifier::external_body]
pub(crate) fn to_uppercase(c: char) -> (upper: String)
    ensures
        upper@ == uppercase_of(c),
{
    c.to_uppercase().collect()
}

/// `word` with `replacement` in place of its first character. An empty word
/// stays empty.
pub open spec fn first_replaced(word: Seq<char>, replacement: Seq<char>) -> Seq<char> {
    if word.len() == 0 {
        word
    } else {
        replacement + word.skip(1)
    }
}

/// `word` in title case: its first character gives way to its upper-case
/// mapping, and nothing else changes.
pub open spec fn title_cased(word: Seq<char>) -> Seq<char> {
    if word.len() == 0 {
        word
    } else {
        first_replaced(word, uppercase_of(word[0]))
    }
}

/// `word` in title case or as it stands.
pub open spec fn styled(word: Seq<char>, title_case: bool) -> Seq<char> {
    if title_case {
        title_cased(word)
    } else {
        word
    }
}

/// Title case touches the first character alone: what follows the
/// upper-case mapping of the first character is the rest of the word as it
/// stood. An empty word stays empty, and a word that is not put in title
/// case stays as it is.
pub proof fn lemma_title_case_keeps_the_rest(word: Seq<char>)
    ensures
        styled(word, false) == word,
        word.len() == 0 ==> styled(word, true) == word,
        word.len() > 0 ==> styled(word, true) == uppercase_of(word[0]) + word.skip(1),
        word.len() > 0 ==> styled(word, true).take(uppercase_of(word[0]).len() as int)
            == uppercase_of(word[0]),
        word.len() > 0 ==> styled(word, true).skip(uppercase_of(word[0]).len() as int)
            == word.skip(1),
{
}

/// `word` with `replacement` in place of its first character.
pub fn replace_first(word: &str, replacement: &str) -> (result: String)
    ensures
        result@ == first_replaced(word@, replacement@),
{
    let length: usize = word.unicode_len();
    if length == 0 {
        return String::new();
    }
    let mut result = String::from_str(replacement);
    result.append(word.substring_char(1, length));
    result
}

/// `word` in title case.
pub fn make_title_case(word: &str) -> (result: String)
    ensures
        result@ == title_cased(word@),
{
    if word.unicode_len() == 0 {
        return String::new();
    }
    let upper = to_uppercase(word.get_char(0));
    replace_first(word, upper.as_str())
}

/// `word` in title case where `title_case` is set, and a copy of it where
/// it is not.
pub fn style_word(word: &str, title_case: bool) -> (result: String)
    ensures
        result@ == styled(word@, title_case),
{
    if title_case {
        make_title_case(word)
    } else {
        String::from_str(word)
    }
}

} // verus!
