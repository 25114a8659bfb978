//! Strings and their texts.

use vstd::prelude::*;

verus! {

/// `String::push` of the standard library, which appends the given
/// character to the end of the string and leaves the rest as it was.
pub assume_specification[ String::push ](text: &mut String, c: char)
    ensures
        final(text)@ == old(text)@.push(c),
;

/// The texts of a list of strings.
pub open spec fn texts(strings: Seq<String>) -> Seq<Seq<char>> {
    strings.map_values(|s: String| s@)
}

/// The string that holds the one character `c`.
pub fn char_token(c: char) -> (token: String)
    ensures
        token@ == seq![c],
{
    let mut token = String::new();
    token.push(c);
    token
}

} // verus!
