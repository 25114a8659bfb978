//! The passphrase itself: words drawn from the list, each as likely as any
//! other, and joined with a separator in every gap.

use crate::casing::{style_word, styled};
use crate::random::draw_below;
use crate::separator::{next_separator, valid_separator, SeparatorModel, SeparatorSpec};
use crate::text::texts;
use rand::rngs::StdRng;
use vstd::prelude::*;
use vstd::string::StringExecFns;

verus! {

/// Why no passphrase was made.
#[derive(Clone, Copy, Debug, PartialEq, Eq)]
pub enum GenerateError {
    /// A passphrase of no words was asked for.
    NoWords,
    /// The word list is empty.
    EmptyWordList,
}

/// The words one after another, with `separators[i]` between `words[i]` and
/// `words[i + 1]`: nothing before the first word and nothing after the
/// last.
pub open spec fn joined(words: Seq<Seq<char>>, separators: Seq<Seq<char>>) -> Seq<char>
    recommends
        words.len() == separators.len() + 1,
    decreases words.len(),
{
    if words.len() == 0 {
        Seq::empty()
    } else if words.len() == 1 {
        words[0]
    } else {
        joined(words.drop_last(), separators.drop_last()) + separators.last() + words.last()
    }
}

/// The words of the list at the places `picks`, each in title case where
/// `title_case` is set.
pub open spec fn picked_words(list: Seq<Seq<char>>, picks: Seq<int>, title_case: bool) -> Seq<
    Seq<char>,
> {
    Seq::new(picks.len(), |i: int| styled(list[picks[i]], title_case))
}

/// Whether `text` is the words of the list at the places `picks`, joined by
/// `separators`, where every place lies in the list, every separator is one
/// that `separator` allows, and there is one separator fewer than words.
pub open spec fn assembles(
    text: Seq<char>,
    picks: Seq<int>,
    separators: Seq<Seq<char>>,
    separator: SeparatorModel,
    title_case: bool,
    list: Seq<Seq<char>>,
) -> bool {
    &&& picks.len() == separators.len() + 1
    &&& forall|i: int| 0 <= i < picks.len() ==> 0 <= #[trigger] picks[i] < list.len()
    &&& forall|j: int|
        0 <= j < separators.len() ==> valid_separator(separator, #[trigger] separators[j])
    &&& text == joined(picked_words(list, picks, title_case), separators)
}

/// Whether `text` is a passphrase of `word_count` words of the list: some
/// `word_count` words of it, joined by `word_count - 1` separators.
pub open spec fn is_passphrase(
    text: Seq<char>,
    word_count: nat,
    separator: SeparatorModel,
    title_case: bool,
    list: Seq<Seq<char>>,
) -> bool {
    exists|picks: Seq<int>, separators: Seq<Seq<char>>|
        picks.len() == word_count && #[trigger] assembles(
            text,
            picks,
            separators,
            separator,
            title_case,
            list,
        )
}

/// Whether a passphrase of `word_count` words can be made from a list of
/// `list_length` words: it takes at least one word, and a list to draw from.
pub fn validate_request(word_count: usize, list_length: usize) -> (result: Result<
    (),
    GenerateError,
>)
    ensures
        word_count == 0 <==> result == Err::<(), GenerateError>(GenerateError::NoWords),
        word_count > 0 && list_length == 0 <==> result == Err::<(), GenerateError>(
            GenerateError::EmptyWordList,
        ),
        word_count > 0 && list_length > 0 <==> result is Ok,
{
    if word_count == 0 {
        Err(GenerateError::NoWords)
    } else if list_length == 0 {
        Err(GenerateError::EmptyWordList)
    } else {
        Ok(())
    }
}

/// The words joined, with the separators in the gaps.
pub fn join_words(words: &Vec<String>, separators: &Vec<String>) -> (text: String)
    requires
        words.len() == separators.len() + 1,
    ensures
        text@ == joined(texts(words@), texts(separators@)),
{
    let mut text = String::from_str(words[0].as_str());
    let mut i: usize = 1;
    while i < words.len()
        invariant
            1 <= i <= words.len(),
            words.len() == separators.len() + 1,
            text@ == joined(texts(words@).take(i as int), texts(separators@).take(i - 1)),
        decreases words.len() - i,
    {
        proof {
            let so_far = texts(words@).take(i as int);
            let next = texts(words@).take(i + 1);
            assert(next.drop_last() =~= so_far);
            assert(texts(separators@).take(i as int).drop_last() =~= texts(separators@).take(
                i - 1,
            ));
        }
        text.append(separators[i - 1].as_str());
        text.append(words[i].as_str());
        i = i + 1;
    }
    assert(texts(words@).take(i as int) =~= texts(words@));
    assert(texts(separators@).take(i - 1) =~= texts(separators@));
    text
}

/// A passphrase of `word_count` words. Each word is drawn from `list` with
/// `rng`, every word of the list being as likely as any other, and is put
/// in title case where `title_case` is set. Between two words stands a
/// separator as `separator` asks for, drawn for that gap alone.
pub fn generate(
    rng: &mut StdRng,
    word_count: usize,
    separator: &SeparatorSpec,
    title_case: bool,
    list: &Vec<String>,
) -> (result: Result<String, GenerateError>)
    ensures
        word_count == 0 <==> result == Err::<String, GenerateError>(GenerateError::NoWords),
        word_count > 0 && list.len() == 0 <==> result == Err::<String, GenerateError>(
            GenerateError::EmptyWordList,
        ),
        word_count > 0 && list.len() > 0 <==> result is Ok,
        result is Ok ==> is_passphrase(
            result->Ok_0@,
            word_count as nat,
            separator@,
            title_case,
            texts(list@),
        ),
{
    match validate_request(word_count, list.len()) {
        Ok(()) => {},
        Err(error) => {
            return Err(error);
        },
    }
    let mut words: Vec<String> = Vec::new();
    let mut separators: Vec<String> = Vec::new();
    let ghost mut picks: Seq<int> = Seq::empty();
    let mut i: usize = 0;
    while i < word_count
        invariant
            i <= word_count,
            list.len() > 0,
            words.len() == i,
            picks.len() == i,
            i == 0 ==> separators.len() == 0,
            i > 0 ==> separators.len() == i - 1,
            forall|k: int| 0 <= k < i ==> 0 <= #[trigger] picks[k] < list.len(),
            forall|k: int|
                0 <= k < i ==> (#[trigger] words[k])@ == styled(list[picks[k]]@, title_case),
            forall|j: int|
                0 <= j < separators.len() ==> valid_separator(
                    separator@,
                    (#[trigger] separators[j])@,
                ),
        decreases word_count - i,
    {
        if i > 0 {
            let token = next_separator(rng, separator);
            separators.push(token);
        }
        let index: usize = draw_below(rng, list.len());
        let word = style_word(list[index].as_str(), title_case);
        words.push(word);
        proof {
            picks = picks.push(index as int);
        }
        i = i + 1;
    }
    let text = join_words(&words, &separators);
    proof {
        assert(texts(words@) =~= picked_words(texts(list@), picks, title_case));
        assert(assembles(
            text@,
            picks,
            texts(separators@),
            separator@,
            title_case,
            texts(list@),
        ));
    }
    Ok(text)
}

} // verus!
