//! The built-in word lists, by the one-letter codes that name them.

use vstd::prelude::*;
use vstd::string::{StrSliceExecFns, StringExecFns};

verus! {

/// A built-in word list.
#[derive(Clone, Copy, Debug, PartialEq, Eq)]
pub enum List {
    /// Orchard Street Long List: 17,576 words.
    Long,
    /// Orchard Street Medium List: 8,192 words.
    Medium,
    /// EFF long list: 7,776 words.
    Eff,
    /// Mnemonicode list: 1,633 words.
    Mnemonicode,
    /// EFF short list: 1,296 words.
    Effshort,
    /// Orchard Street QWERTY list: 1,296 words.
    Qwerty,
    /// Orchard Street Alpha list: 1,296 words.
    Alpha,
}

/// A text in lower case as Unicode defines it: what `str::to_lowercase` of
/// the standard library returns.
pub uninterp spec fn lowercase_of(text: Seq<char>) -> Seq<char>;

/// `text` in lower case, by `str::to_lowercase` of the standard library.
#[verifier::external_body]
pub(crate) fn to_lowercase(text: &str) -> (lower: String)
    ensures
        lower@ == lowercase_of(text@),
{
    text.to_lowercase()
}

/// The list that a code in lower case names, if it names one.
pub open spec fn list_named(code: Seq<char>) -> Option<List> {
    if code == seq!['l'] {
        Some(List::Long)
    } else if code == seq!['m'] {
        Some(List::Medium)
    } else if code == seq!['e'] {
        Some(List::Eff)
    } else if code == seq!['n'] {
        Some(List::Mnemonicode)
    } else if code == seq!['s'] {
        Some(List::Effshort)
    } else if code == seq!['q'] {
        Some(List::Qwerty)
    } else if code == seq!['a'] {
        Some(List::Alpha)
    } else {
        None
    }
}

/// What is said of a choice that names no list.
pub open spec fn unknown_list_message(choice: Seq<char>) -> Seq<char> {
    "Inputted list choice '"@ + choice + "' doesn't correspond to an available word list"@
}

/// What `parse_list_choice` returns for a choice whose lower case is
/// `lowered`.
pub open spec fn parsed_list_choice(choice: Seq<char>, lowered: Seq<char>) -> Result<
    List,
    Seq<char>,
> {
    match list_named(lowered) {
        Some(list) => Ok(list),
        None => Err(unknown_list_message(choice)),
    }
}

/// The list that a code in lower case names.
pub fn list_for_code(code: &str) -> (list: Option<List>)
    ensures
        list == list_named(code@),
{
    if code.unicode_len() != 1 {
        assert(seq!['l'].len() == 1 && seq!['m'].len() == 1 && seq!['e'].len() == 1 && seq![
            'n',
        ].len() == 1 && seq!['s'].len() == 1 && seq!['q'].len() == 1 && seq!['a'].len() == 1);
        return None;
    }
    let letter: char = code.get_char(0);
    assert(code@ =~= seq![letter]);
    assert(seq!['l'][0] == 'l' && seq!['m'][0] == 'm' && seq!['e'][0] == 'e' && seq!['n'][0]
        == 'n' && seq!['s'][0] == 's' && seq!['q'][0] == 'q' && seq!['a'][0] == 'a');
    if letter == 'l' {
        Some(List::Long)
    } else if letter == 'm' {
        Some(List::Medium)
    } else if letter == 'e' {
        Some(List::Eff)
    } else if letter == 'n' {
        Some(List::Mnemonicode)
    } else if letter == 's' {
        Some(List::Effshort)
    } else if letter == 'q' {
        Some(List::Qwerty)
    } else if letter == 'a' {
        Some(List::Alpha)
    } else {
        None
    }
}

/// The answer to a list choice once its lower case is known: the list that
/// the lower case names, or the complaint about the choice as it was given.
pub fn list_choice_from(list_choice: &str, lowered: &str) -> (result: Result<List, String>)
    ensures
        match parsed_list_choice(list_choice@, lowered@) {
            Ok(list) => result == Ok::<List, String>(list),
            Err(message) => result is Err && result->Err_0@ == message,
        },
{
    match list_for_code(lowered) {
        Some(list) => Ok(list),
        None => {
            let mut message = String::from_str("Inputted list choice '");
            message.append(list_choice);
            message.append("' doesn't correspond to an available word list");
            Err(message)
        },
    }
}

/// Reads a list choice: one of the letters `l`, `m`, `e`, `n`, `s`, `q` and
/// `a`, in upper or lower case.
pub fn parse_list_choice(list_choice: &str) -> (result: Result<List, String>)
    ensures
        match parsed_list_choice(list_choice@, lowercase_of(list_choice@)) {
            Ok(list) => result == Ok::<List, String>(list),
            Err(message) => result is Err && result->Err_0@ == message,
        },
{
    let lowered = to_lowercase(list_choice);
    list_choice_from(list_choice, lowered.as_str())
}

} // verus!
