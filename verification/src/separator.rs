//! What stands between two words of a passphrase: a fixed text, or a token
//! drawn anew for every gap.

use crate::random::draw_below;
use crate::text::char_token;
use rand::rngs::StdRng;
use vstd::prelude::*;
use vstd::string::StrSliceExecFns;

verus! {

/// How the gaps between the words are filled.
#[derive(Debug, PartialEq, Eq)]
pub enum SeparatorSpec {
    /// The same text in every gap. It may be empty.
    Literal(String),
    /// One random decimal digit in each gap.
    Numeric,
    /// One random symbol of the symbol alphabet in each gap.
    Symbolic,
    /// In each gap, by the flip of a coin, a random digit or a random symbol.
    Mixed,
}

/// How the gaps are filled, with a literal separator as a sequence of
/// characters.
pub enum SeparatorModel {
    Literal(Seq<char>),
    Numeric,
    Symbolic,
    Mixed,
}

impl View for SeparatorSpec {
    type V = SeparatorModel;

    open spec fn view(&self) -> SeparatorModel {
        match self {
            SeparatorSpec::Literal(text) => SeparatorModel::Literal(text@),
            SeparatorSpec::Numeric => SeparatorModel::Numeric,
            SeparatorSpec::Symbolic => SeparatorModel::Symbolic,
            SeparatorSpec::Mixed => SeparatorModel::Mixed,
        }
    }
}

/// The symbols that a symbolic separator is drawn from, each as likely as
/// any other.
pub open spec fn symbol_alphabet() -> Seq<char> {
    "!@#$%&*(){}[]\\:;'<>?,./_-+="@
}

/// The number of symbols in the symbol alphabet.
pub const SYMBOL_COUNT: usize = 27;

/// The character of a decimal digit.
pub open spec fn digit_char(digit: int) -> char {
    (0x30 + digit) as char
}

/// Whether `token` is one decimal digit.
pub open spec fn is_digit_token(token: Seq<char>) -> bool {
    exists|digit: int| 0 <= digit < 10 && token == seq![#[trigger] digit_char(digit)]
}

/// Whether `token` is one symbol of the symbol alphabet.
pub open spec fn is_symbol_token(token: Seq<char>) -> bool {
    exists|index: int|
        0 <= index < symbol_alphabet().len() && token == seq![#[trigger] symbol_alphabet()[index]]
}

/// Whether `token` may fill a gap under `spec`.
pub open spec fn valid_separator(spec: SeparatorModel, token: Seq<char>) -> bool {
    match spec {
        SeparatorModel::Literal(text) => token == text,
        SeparatorModel::Numeric => is_digit_token(token),
        SeparatorModel::Symbolic => is_symbol_token(token),
        SeparatorModel::Mixed => is_digit_token(token) || is_symbol_token(token),
    }
}

/// What a separator argument means: `_n`, `_s` and `_b` ask for digits,
/// symbols and a blend of both, and any other text stands for itself.
pub open spec fn parsed_separator(text: Seq<char>) -> SeparatorModel {
    if text == seq!['_', 'n'] {
        SeparatorModel::Numeric
    } else if text == seq!['_', 's'] {
        SeparatorModel::Symbolic
    } else if text == seq!['_', 'b'] {
        SeparatorModel::Mixed
    } else {
        SeparatorModel::Literal(text)
    }
}

/// The symbol alphabet has `SYMBOL_COUNT` symbols, and no digit among them.
pub proof fn lemma_symbol_alphabet()
    ensures
        symbol_alphabet().len() == SYMBOL_COUNT,
        forall|index: int, digit: int|
            0 <= index < symbol_alphabet().len() && 0 <= digit < 10
                ==> #[trigger] symbol_alphabet()[index] != #[trigger] digit_char(digit),
{
    reveal_strlit("!@#$%&*(){}[]\\:;'<>?,./_-+=");
}

/// A token is never both a digit and a symbol.
pub proof fn lemma_digit_or_symbol(token: Seq<char>)
    ensures
        !(is_digit_token(token) && is_symbol_token(token)),
{
    if is_digit_token(token) && is_symbol_token(token) {
        let digit = choose|digit: int|
            0 <= digit < 10 && token == seq![#[trigger] digit_char(digit)];
        let index = choose|index: int|
            0 <= index < symbol_alphabet().len() && token == seq![
                #[trigger] symbol_alphabet()[index],
            ];
        lemma_symbol_alphabet();
        assert(seq![digit_char(digit)][0] == seq![symbol_alphabet()[index]][0]);
    }
}

/// A digit token is one character from `0` to `9`, and a symbol token is
/// one character of the symbol alphabet.
pub proof fn lemma_tokens_are_single_characters(token: Seq<char>)
    ensures
        is_digit_token(token) <==> token.len() == 1 && 0x30 <= token[0] as int <= 0x39,
        is_symbol_token(token) <==> token.len() == 1 && symbol_alphabet().contains(token[0]),
{
    if is_digit_token(token) {
        let digit = choose|digit: int|
            0 <= digit < 10 && token == seq![#[trigger] digit_char(digit)];
        assert(token[0] == digit_char(digit));
    }
    if token.len() == 1 && 0x30 <= token[0] as int <= 0x39 {
        let digit = token[0] as int - 0x30;
        assert(token =~= seq![digit_char(digit)]);
    }
    if is_symbol_token(token) {
        let index = choose|index: int|
            0 <= index < symbol_alphabet().len() && token == seq![
                #[trigger] symbol_alphabet()[index],
            ];
        assert(token[0] == symbol_alphabet()[index]);
    }
    if token.len() == 1 && symbol_alphabet().contains(token[0]) {
        let index = choose|index: int|
            0 <= index < symbol_alphabet().len() && symbol_alphabet()[index] == token[0];
        assert(token =~= seq![symbol_alphabet()[index]]);
    }
}

/// Reads a separator argument.
pub fn parse_separator(text: &str) -> (spec: SeparatorSpec)
    ensures
        spec@ == parsed_separator(text@),
{
    let length: usize = text.unicode_len();
    if length == 2 && text.get_char(0) == '_' {
        let mode: char = text.get_char(1);
        assert(text@ =~= seq!['_', mode]);
        if mode == 'n' {
            return SeparatorSpec::Numeric;
        } else if mode == 's' {
            return SeparatorSpec::Symbolic;
        } else if mode == 'b' {
            return SeparatorSpec::Mixed;
        }
    } else {
        assert(seq!['_', 'n'].len() == 2 && seq!['_', 's'].len() == 2 && seq!['_', 'b'].len()
            == 2);
    }
    SeparatorSpec::Literal(String::from_str(text))
}

/// Whether the words of a passphrase would run together with nothing to
/// tell them apart: they come from a caller's own list, where one word may
/// begin as another ends, the separator is empty, and no word begins with a
/// capital.
pub fn runs_words_together(custom_list: bool, separator: &str, title_case: bool) -> (hazard: bool)
    ensures
        hazard == (custom_list && separator@.len() == 0 && !title_case),
{
    custom_list && !title_case && separator.unicode_len() == 0
}

/// The token of the decimal digit `digit`.
pub fn digit_token(digit: usize) -> (token: String)
    requires
        digit < 10,
    ensures
        token@ == seq![digit_char(digit as int)],
        is_digit_token(token@),
{
    let c: char = (0x30u8 + digit as u8) as char;
    char_token(c)
}

/// The token of the symbol at `index` in the symbol alphabet.
pub fn symbol_token(index: usize) -> (token: String)
    requires
        index < SYMBOL_COUNT,
    ensures
        token@ == seq![symbol_alphabet()[index as int]],
        is_symbol_token(token@),
{
    let symbols: &str = "!@#$%&*(){}[]\\:;'<>?,./_-+=";
    proof {
        lemma_symbol_alphabet();
    }
    char_token(symbols.get_char(index))
}

/// The separator for the next gap. A literal separator is its text, every
/// time. The other modes draw: a digit out of ten, a symbol out of the
/// alphabet, or first one of the two kinds and then a token of that kind.
pub fn next_separator(rng: &mut StdRng, spec: &SeparatorSpec) -> (token: String)
    ensures
        valid_separator(spec@, token@),
{
    match spec {
        SeparatorSpec::Literal(text) => text.clone(),
        SeparatorSpec::Numeric => digit_token(draw_below(rng, 10)),
        SeparatorSpec::Symbolic => symbol_token(draw_below(rng, SYMBOL_COUNT)),
        SeparatorSpec::Mixed => {
            let kind: usize = draw_below(rng, 2);
            if kind == 0 {
                symbol_token(draw_below(rng, SYMBOL_COUNT))
            } else {
                digit_token(draw_below(rng, 10))
            }
        },
    }
}

} // verus!
