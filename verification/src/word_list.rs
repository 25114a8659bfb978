//! Word lists that a caller brings: from the lines of a text to a list of
//! words in order, each word once.

use crate::text::texts;
use vstd::prelude::*;
use vstd::string::{StrSliceExecFns, StringExecFns};

verus! {

/// A text without the white space at its start and at its end, white space
/// being what Unicode calls so: what `str::trim` of the standard library
/// returns.
pub uninterp spec fn trimmed(text: Seq<char>) -> Seq<char>;

/// `text` without the white space at its start and at its end, by
/// `str::trim` of the standard library.
#[verifier::external_body]
pub(crate) fn trim<'a>(text: &'a str) -> (result: &'a str)
    ensures
        result@ == trimmed(text@),
{
    text.trim()
}

/// Whether `first` comes before `second` in the order of strings: at the
/// first place where the two differ `first` has the character with the
/// lower code point, or `first` ends there and `second` goes on.
pub open spec fn text_before(first: Seq<char>, second: Seq<char>) -> bool
    decreases first.len(),
{
    if second.len() == 0 {
        false
    } else if first.len() == 0 {
        true
    } else if first[0] == second[0] {
        text_before(first.skip(1), second.skip(1))
    } else {
        (first[0] as int) < (second[0] as int)
    }
}

/// Whether each text of the list comes before all that follow it, so that
/// the list is in order and no text stands in it twice.
pub open spec fn strictly_sorted(list: Seq<Seq<char>>) -> bool {
    forall|i: int, j: int| 0 <= i < j < list.len() ==> text_before(list[i], list[j])
}

/// Whether `word` is what is left of some line after trimming, and is not
/// empty.
pub open spec fn is_word_of(word: Seq<char>, lines: Seq<Seq<char>>) -> bool {
    &&& word.len() > 0
    &&& exists|k: int| 0 <= k < lines.len() && word == trimmed(#[trigger] lines[k])
}

/// Whether `list` is the word list that `lines` give: the trimmed lines
/// that are not empty, in order, each once.
pub open spec fn is_word_list_of(list: Seq<Seq<char>>, lines: Seq<Seq<char>>) -> bool {
    &&& strictly_sorted(list)
    &&& forall|word: Seq<char>| list.contains(word) <==> is_word_of(word, lines)
}

/// No text comes before itself.
pub proof fn lemma_before_irreflexive(text: Seq<char>)
    ensures
        !text_before(text, text),
    decreases text.len(),
{
    if text.len() > 0 {
        lemma_before_irreflexive(text.skip(1));
    }
}

/// What comes before a text comes before all that the text comes before.
pub proof fn lemma_before_transitive(first: Seq<char>, second: Seq<char>, third: Seq<char>)
    requires
        text_before(first, second),
        text_before(second, third),
    ensures
        text_before(first, third),
    decreases first.len(),
{
    if first.len() > 0 && first[0] == second[0] && second[0] == third[0] {
        lemma_before_transitive(first.skip(1), second.skip(1), third.skip(1));
    }
}

/// Of two texts that differ, one comes before the other.
pub proof fn lemma_before_total(first: Seq<char>, second: Seq<char>)
    ensures
        text_before(first, second) || text_before(second, first) || first == second,
    decreases first.len(),
{
    if first.len() == 0 || second.len() == 0 {
        if first.len() == 0 && second.len() == 0 {
            assert(first =~= second);
        }
    } else if first[0] == second[0] {
        lemma_before_total(first.skip(1), second.skip(1));
        if first.skip(1) == second.skip(1) {
            assert(first =~= seq![first[0]] + first.skip(1));
            assert(second =~= seq![second[0]] + second.skip(1));
        }
    } else {
        assert(first[0] as int != second[0] as int);
    }
}

/// Two lists in order that hold the same texts are the same list.
pub proof fn lemma_sorted_lists_agree(one: Seq<Seq<char>>, other: Seq<Seq<char>>)
    requires
        strictly_sorted(one),
        strictly_sorted(other),
        forall|word: Seq<char>| one.contains(word) <==> other.contains(word),
    ensures
        one == other,
    decreases one.len(),
{
    if one.len() == 0 {
        if other.len() > 0 {
            assert(other.contains(other[0]));
        }
        assert(one =~= other);
    } else if other.len() == 0 {
        assert(one.contains(one[0]));
    } else {
        let a = one.last();
        let b = other.last();
        assert(one.contains(a));
        assert(other.contains(b));
        let at_a = choose|i: int| 0 <= i < other.len() && other[i] == a;
        let at_b = choose|i: int| 0 <= i < one.len() && one[i] == b;
        lemma_before_total(a, b);
        if text_before(a, b) {
            if at_b < one.len() - 1 {
                lemma_before_transitive(b, a, b);
            }
            lemma_before_irreflexive(b);
        } else if text_before(b, a) {
            if at_a < other.len() - 1 {
                lemma_before_transitive(a, b, a);
            }
            lemma_before_irreflexive(a);
        }
        assert(a == b);
        let rest_one = one.drop_last();
        let rest_other = other.drop_last();
        assert forall|word: Seq<char>| rest_one.contains(word) <==> rest_other.contains(
            word,
        ) by {
            lemma_before_irreflexive(a);
            if rest_one.contains(word) {
                let i = choose|i: int| 0 <= i < rest_one.len() && rest_one[i] == word;
                assert(one[i] == word);
                assert(one.contains(word));
                let j = choose|j: int| 0 <= j < other.len() && other[j] == word;
                assert(text_before(one[i], one[one.len() - 1]));
                assert(rest_other[j] == word);
            }
            if rest_other.contains(word) {
                let j = choose|j: int| 0 <= j < rest_other.len() && rest_other[j] == word;
                assert(other[j] == word);
                assert(other.contains(word));
                let i = choose|i: int| 0 <= i < one.len() && one[i] == word;
                assert(text_before(other[j], other[other.len() - 1]));
                assert(rest_one[i] == word);
            }
        }
        lemma_sorted_lists_agree(rest_one, rest_other);
        assert(one =~= rest_one.push(a));
        assert(other =~= rest_other.push(b));
    }
}

/// The lines of a text give one word list and no other.
pub proof fn lemma_word_list_is_unique(
    one: Seq<Seq<char>>,
    other: Seq<Seq<char>>,
    lines: Seq<Seq<char>>,
)
    requires
        is_word_list_of(one, lines),
        is_word_list_of(other, lines),
    ensures
        one == other,
{
    lemma_sorted_lists_agree(one, other);
}

/// Whether `first` comes before `second` in the order of strings.
pub fn comes_before(first: &str, second: &str) -> (result: bool)
    ensures
        result == text_before(first@, second@),
{
    let first_length: usize = first.unicode_len();
    let second_length: usize = second.unicode_len();
    let mut i: usize = 0;
    assert(first@.skip(0) =~= first@);
    assert(second@.skip(0) =~= second@);
    while i < first_length && i < second_length
        invariant
            i <= first_length,
            i <= second_length,
            first_length == first@.len(),
            second_length == second@.len(),
            text_before(first@, second@) == text_before(
                first@.skip(i as int),
                second@.skip(i as int),
            ),
        decreases first_length - i,
    {
        let a: char = first.get_char(i);
        let b: char = second.get_char(i);
        if a != b {
            return (a as u32) < (b as u32);
        }
        assert(first@.skip(i as int).skip(1) =~= first@.skip(i + 1));
        assert(second@.skip(i as int).skip(1) =~= second@.skip(i + 1));
        i = i + 1;
    }
    i < second_length
}

/// The place of `word` in a list in order: all before that place come
/// before `word`, and none from that place on does.
fn place_of(list: &Vec<String>, word: &str) -> (place: usize)
    requires
        strictly_sorted(texts(list@)),
    ensures
        place <= list.len(),
        forall|i: int| 0 <= i < place ==> text_before(#[trigger] list[i]@, word@),
        forall|i: int| place <= i < list.len() ==> !text_before(#[trigger] list[i]@, word@),
{
    let mut low: usize = 0;
    let mut high: usize = list.len();
    while low < high
        invariant
            low <= high <= list.len(),
            strictly_sorted(texts(list@)),
            forall|i: int| 0 <= i < low ==> text_before(#[trigger] list[i]@, word@),
            forall|i: int| high <= i < list.len() ==> !text_before(#[trigger] list[i]@, word@),
        decreases high - low,
    {
        let middle: usize = low + (high - low) / 2;
        if comes_before(list[middle].as_str(), word) {
            assert forall|i: int| 0 <= i < middle + 1 implies text_before(
                #[trigger] list[i]@,
                word@,
            ) by {
                if i < middle {
                    assert(text_before(texts(list@)[i], texts(list@)[middle as int]));
                    lemma_before_transitive(list[i]@, list[middle as int]@, word@);
                }
            }
            low = middle + 1;
        } else {
            assert forall|i: int| middle <= i < list.len() implies !text_before(
                #[trigger] list[i]@,
                word@,
            ) by {
                if middle < i && text_before(list[i]@, word@) {
                    assert(text_before(texts(list@)[middle as int], texts(list@)[i]));
                    lemma_before_transitive(list[middle as int]@, list[i]@, word@);
                }
            }
            high = middle;
        }
    }
    low
}

/// Puts `word` into a list in order, at its place, unless it stands there
/// already.
pub fn insert_word(list: &mut Vec<String>, word: String)
    requires
        strictly_sorted(texts(old(list)@)),
    ensures
        strictly_sorted(texts(final(list)@)),
        forall|other: Seq<char>|
            texts(final(list)@).contains(other) <==> texts(old(list)@).contains(other) || other
                == word@,
{
    let place: usize = place_of(list, word.as_str());
    let ghost before = texts(list@);
    if place < list.len() && !comes_before(word.as_str(), list[place].as_str()) {
        proof {
            lemma_before_total(word@, list[place as int]@);
            assert(before[place as int] == word@);
        }
        return ;
    }
    proof {
        assert forall|i: int| place <= i < list.len() implies text_before(
            word@,
            #[trigger] list[i]@,
        ) by {
            if place < i {
                assert(text_before(before[place as int], before[i]));
                lemma_before_transitive(word@, list[place as int]@, list[i]@);
            }
        }
    }
    list.insert(place, word);
    proof {
        let after = texts(list@);
        assert(after =~= before.insert(place as int, word@));
        assert forall|i: int, j: int| 0 <= i < j < after.len() implies text_before(
            after[i],
            after[j],
        ) by {
            if i < place && j > place {
                assert(text_before(before[i], before[j - 1]));
            } else if i >= place && j > place {
                if i > place {
                    assert(text_before(before[i - 1], before[j - 1]));
                }
            } else if j < place {
                assert(text_before(before[i], before[j]));
            }
        }
        assert forall|other: Seq<char>|
            after.contains(other) <==> before.contains(other) || other == word@ by {
            if after.contains(other) {
                let i = choose|i: int| 0 <= i < after.len() && after[i] == other;
                if i < place {
                    assert(before[i] == other);
                } else if i > place {
                    assert(before[i - 1] == other);
                }
            }
            if before.contains(other) {
                let i = choose|i: int| 0 <= i < before.len() && before[i] == other;
                if i < place {
                    assert(after[i] == other);
                } else {
                    assert(after[i + 1] == other);
                }
            }
            if other == word@ {
                assert(after[place as int] == other);
            }
        }
    }
}

/// The word list that the lines of a text give. Each line is trimmed of
/// the white space at its start and end; a line of which nothing is left is
/// passed over; the words are put in order, and a word that comes twice is
/// kept once.
pub fn word_list_from_lines(lines: &Vec<String>) -> (list: Vec<String>)
    ensures
        is_word_list_of(texts(list@), texts(lines@)),
{
    let mut list: Vec<String> = Vec::new();
    let mut i: usize = 0;
    while i < lines.len()
        invariant
            i <= lines.len(),
            strictly_sorted(texts(list@)),
            forall|word: Seq<char>|
                texts(list@).contains(word) <==> is_word_of(word, texts(lines@).take(i as int)),
        decreases lines.len() - i,
    {
        let word: &str = trim(lines[i].as_str());
        let ghost before = texts(list@);
        let ghost seen = texts(lines@).take(i as int);
        let ghost next = texts(lines@).take(i + 1);
        proof {
            assert(next =~= seen.push(lines[i as int]@));
            assert forall|other: Seq<char>| is_word_of(other, next) <==> is_word_of(other, seen)
                || (other.len() > 0 && other == word@) by {
                if is_word_of(other, next) {
                    let k = choose|k: int|
                        0 <= k < next.len() && other == trimmed(#[trigger] next[k]);
                    if k < i {
                        assert(seen[k] == next[k]);
                    }
                }
                if is_word_of(other, seen) {
                    let k = choose|k: int|
                        0 <= k < seen.len() && other == trimmed(#[trigger] seen[k]);
                    assert(next[k] == seen[k]);
                }
                if other.len() > 0 && other == word@ {
                    assert(other == trimmed(next[i as int]));
                }
            }
        }
        if word.unicode_len() > 0 {
            insert_word(&mut list, String::from_str(word));
        }
        i = i + 1;
    }
    assert(texts(lines@).take(i as int) =~= texts(lines@));
    list
}

} // verus!
