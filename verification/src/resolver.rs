//! From a request (a word count, a minimum entropy, or strength steps) and the
//! size of the word list to the number of words to draw.
//!
//! A passphrase of `n` words drawn from a list of `l` words has
//! `n * log2(l)` bits of entropy. That is at least `e` bits exactly when
//! `l^n >= 2^e`, and the arithmetic here is done on that form, in whole
//! numbers, so that no rounding can ever promise more than is delivered.

use crate::natural::Natural;
use vstd::arithmetic::logarithm::{lemma_log0, lemma_log_s, log};
use vstd::arithmetic::power::{lemma_pow0, lemma_pow_positive, pow};
use vstd::arithmetic::power2::{
    lemma2_to64,
    lemma_pow2,
    lemma_pow2_strictly_increases,
    lemma_pow2_unfold,
    pow2,
};
use vstd::prelude::*;

verus! {

/// Bits of entropy asked for when a request names no minimum.
pub const DEFAULT_MINIMUM_ENTROPY: usize = 80;

/// Bits of entropy that one strength step adds to the minimum.
pub const STRENGTH_INCREMENT: usize = 20;

/// Why no word count could be computed.
#[derive(Clone, Copy, Debug, PartialEq, Eq)]
pub enum ResolveError {
    /// The word list has fewer than two words, so that no number of words
    /// drawn from it holds any entropy.
    ListTooShort,
    /// The minimum and the strength steps add up to more bits than a
    /// machine word can count.
    EntropyTooLarge,
}

/// Whether `words` words from a list of `list_length` words hold at least
/// `bits` bits of entropy: `words * log2(list_length) >= bits`, stated as
/// `list_length^words >= 2^bits`.
pub open spec fn meets_entropy(words: nat, list_length: nat, bits: nat) -> bool {
    pow(list_length as int, words) >= pow2(bits)
}

/// Whether `words` is the smallest word count that meets `bits` bits.
pub open spec fn is_words_needed(words: nat, bits: nat, list_length: nat) -> bool {
    &&& meets_entropy(words, list_length, bits)
    &&& forall|fewer: nat| fewer < words ==> !meets_entropy(fewer, list_length, bits)
}

/// The smallest word count that meets `bits` bits with a list of
/// `list_length` words, which is `ceil(bits / log2(list_length))`.
pub open spec fn words_needed(bits: nat, list_length: nat) -> nat {
    choose|words: nat| is_words_needed(words, bits, list_length)
}

/// The minimum entropy that a request stands for: the minimum it names, or
/// the default, and twenty bits more for each strength step.
pub open spec fn effective_entropy(minimum_entropy: Option<usize>, strength_steps: usize) -> nat {
    let named = match minimum_entropy {
        Some(bits) => bits as nat,
        None => DEFAULT_MINIMUM_ENTROPY as nat,
    };
    named + strength_steps as nat * STRENGTH_INCREMENT as nat
}

/// What `resolve` returns.
pub open spec fn resolved(
    word_count: Option<usize>,
    minimum_entropy: Option<usize>,
    strength_steps: usize,
    list_length: usize,
) -> Result<usize, ResolveError> {
    match word_count {
        Some(count) => Ok(count),
        None => if list_length < 2 {
            Err(ResolveError::ListTooShort)
        } else if effective_entropy(minimum_entropy, strength_steps) > usize::MAX {
            Err(ResolveError::EntropyTooLarge)
        } else {
            Ok(
                words_needed(
                    effective_entropy(minimum_entropy, strength_steps),
                    list_length as nat,
                ) as usize,
            )
        },
    }
}

proof fn lemma_pow_unfold(base: int, exponent: nat)
    ensures
        pow(base, exponent + 1) == base * pow(base, exponent),
{
    reveal(pow);
}

/// With at least two words in the list, `n` words hold at least `n` bits.
proof fn lemma_pow_at_least_pow2(list_length: nat, words: nat)
    requires
        list_length >= 2,
    ensures
        pow(list_length as int, words) >= pow2(words),
    decreases words,
{
    if words == 0 {
        lemma_pow0(list_length as int);
        lemma_pow0(2);
    } else {
        let fewer = (words - 1) as nat;
        lemma_pow_at_least_pow2(list_length, fewer);
        lemma_pow_unfold(list_length as int, fewer);
        lemma_pow_unfold(2, fewer);
        lemma_pow2(fewer);
        assert(list_length * pow(list_length as int, fewer) >= 2 * pow(2, fewer))
            by (nonlinear_arith)
            requires
                list_length >= 2,
                pow(list_length as int, fewer) >= pow(2, fewer),
                pow(2, fewer) >= 0,
        ;
    }
}

/// A word count that does not meet `bits` bits is smaller than `bits`.
proof fn lemma_short_of_entropy(words: nat, bits: nat, list_length: nat)
    requires
        list_length >= 2,
        !meets_entropy(words, list_length, bits),
    ensures
        words < bits,
{
    lemma_pow_at_least_pow2(list_length, words);
    if words > bits {
        lemma_pow2_strictly_increases(bits, words);
    }
}

proof fn lemma_least_from(start: nat, bits: nat, list_length: nat) -> (words: nat)
    requires
        list_length >= 2,
        forall|fewer: nat| fewer < start ==> !meets_entropy(fewer, list_length, bits),
    ensures
        is_words_needed(words, bits, list_length),
    decreases bits + 1 - start,
{
    if meets_entropy(start, list_length, bits) {
        start
    } else {
        lemma_short_of_entropy(start, bits, list_length);
        lemma_least_from(start + 1, bits, list_length)
    }
}

/// There is one smallest word count, and `words_needed` is it. It is never
/// more than the number of bits asked for.
pub proof fn lemma_words_needed(bits: nat, list_length: nat)
    requires
        list_length >= 2,
    ensures
        is_words_needed(words_needed(bits, list_length), bits, list_length),
        words_needed(bits, list_length) <= bits,
        forall|words: nat| #[trigger]
            is_words_needed(words, bits, list_length) ==> words == words_needed(bits, list_length),
{
    let witness = lemma_least_from(0, bits, list_length);
    let least = words_needed(bits, list_length);
    if least > bits {
        lemma_pow_at_least_pow2(list_length, bits);
        assert(meets_entropy(bits, list_length, bits));
    }
    assert forall|words: nat| #[trigger]
        is_words_needed(words, bits, list_length) implies words == least by {
        if words < least {
            assert(!meets_entropy(words, list_length, bits));
        } else if least < words {
            assert(!meets_entropy(least, list_length, bits));
        }
    }
}

/// The smallest number of words from a list of `list_length` words that
/// hold at least `bits` bits of entropy.
pub fn words_for_entropy(bits: usize, list_length: usize) -> (result: Result<usize, ResolveError>)
    ensures
        list_length < 2 <==> result == Err::<usize, ResolveError>(ResolveError::ListTooShort),
        list_length >= 2 ==> result == Ok::<usize, ResolveError>(
            words_needed(bits as nat, list_length as nat) as usize,
        ),
        list_length >= 2 ==> words_needed(bits as nat, list_length as nat) <= bits,
        list_length >= 2 ==> is_words_needed(
            words_needed(bits as nat, list_length as nat),
            bits as nat,
            list_length as nat,
        ),
{
    if list_length < 2 {
        return Err(ResolveError::ListTooShort);
    }
    let factor: u64 = list_length as u64;
    let mut power: Natural = Natural::one();
    let mut words: usize = 0;
    proof {
        lemma_pow0(list_length as int);
    }
    while !power.reaches_pow2(bits)
        invariant
            list_length >= 2,
            factor == list_length,
            power@ == pow(list_length as int, words as nat),
            words <= bits,
            forall|fewer: nat|
                fewer < words ==> !meets_entropy(fewer, list_length as nat, bits as nat),
        decreases bits - words,
    {
        proof {
            lemma_short_of_entropy(words as nat, bits as nat, list_length as nat);
            lemma_pow_unfold(list_length as int, words as nat);
            assert(power@ * factor == list_length * pow(list_length as int, words as nat))
                by (nonlinear_arith)
                requires
                    power@ == pow(list_length as int, words as nat),
                    factor == list_length,
            ;
        }
        power = power.times(factor);
        words = words + 1;
    }
    assert(is_words_needed(words as nat, bits as nat, list_length as nat));
    Ok(words)
}

/// The number of words to draw. A word count that is given is returned as it
/// is. Otherwise the result is the smallest word count whose entropy is at
/// least the minimum asked for: the minimum given, or the default of 80 bits,
/// and 20 bits more for each strength step.
pub fn resolve(
    word_count: Option<usize>,
    minimum_entropy: Option<usize>,
    strength_steps: usize,
    list_length: usize,
) -> (result: Result<usize, ResolveError>)
    ensures
        result == resolved(word_count, minimum_entropy, strength_steps, list_length),
        word_count is Some ==> result == Ok::<usize, ResolveError>(word_count->Some_0),
        word_count is None && result is Ok ==> is_words_needed(
            result->Ok_0 as nat,
            effective_entropy(minimum_entropy, strength_steps),
            list_length as nat,
        ),
{
    match word_count {
        Some(count) => Ok(count),
        None => {
            if list_length < 2 {
                return Err(ResolveError::ListTooShort);
            }
            let named: usize = match minimum_entropy {
                Some(bits) => bits,
                None => DEFAULT_MINIMUM_ENTROPY,
            };
            let bits: usize = match strength_steps.checked_mul(STRENGTH_INCREMENT) {
                Some(extra) => match named.checked_add(extra) {
                    Some(bits) => bits,
                    None => {
                        return Err(ResolveError::EntropyTooLarge);
                    },
                },
                None => {
                    return Err(ResolveError::EntropyTooLarge);
                },
            };
            words_for_entropy(bits, list_length)
        },
    }
}

/// Whether `bits` is the entropy of `words` words from a list of
/// `list_length` words, rounded down to whole bits: the words hold `bits`
/// bits and do not hold one more.
pub open spec fn is_entropy_floor(bits: nat, words: nat, list_length: nat) -> bool {
    &&& meets_entropy(words, list_length, bits)
    &&& !meets_entropy(words, list_length, bits + 1)
}

/// The entropy of a passphrase of `word_count` words from a list of
/// `list_length` words, rounded down to whole bits:
/// `floor(word_count * log2(list_length))`. Random separators are not
/// counted, so that the passphrase holds at least this much.
pub fn guaranteed_bits(word_count: usize, list_length: usize) -> (result: Result<
    u128,
    ResolveError,
>)
    ensures
        list_length < 2 <==> result == Err::<u128, ResolveError>(ResolveError::ListTooShort),
        list_length >= 2 <==> result is Ok,
        result matches Ok(bits) ==> is_entropy_floor(
            bits as nat,
            word_count as nat,
            list_length as nat,
        ),
{
    if list_length < 2 {
        return Err(ResolveError::ListTooShort);
    }
    let factor: u64 = list_length as u64;
    let mut power: Natural = Natural::one();
    let mut words: usize = 0;
    proof {
        lemma_pow0(list_length as int);
    }
    while words < word_count
        invariant
            words <= word_count,
            factor == list_length,
            power@ == pow(list_length as int, words as nat),
        decreases word_count - words,
    {
        proof {
            lemma_pow_unfold(list_length as int, words as nat);
            assert(power@ * factor == list_length * pow(list_length as int, words as nat))
                by (nonlinear_arith)
                requires
                    power@ == pow(list_length as int, words as nat),
                    factor == list_length,
            ;
        }
        power = power.times(factor);
        words = words + 1;
    }
    proof {
        lemma_pow_positive(list_length as int, word_count as nat);
    }
    match power.floor_log2() {
        Some(bits) => Ok(bits),
        None => unreached(),
    }
}

/// A number from 2^bits up to 2^(bits + 1), the latter left out, has `bits`
/// for the whole part of its binary logarithm.
proof fn lemma_log2_between(number: int, bits: nat)
    requires
        pow2(bits) <= number < pow2(bits + 1),
    ensures
        log(2, number) == bits,
    decreases bits,
{
    lemma2_to64();
    if bits == 0 {
        lemma_log0(2, number);
    } else {
        lemma_pow2_unfold(bits);
        lemma_pow2_unfold(bits + 1);
        lemma_log_s(2, number);
        lemma_log2_between(number / 2, (bits - 1) as nat);
    }
}

/// The rounded-down entropy of a passphrase is the whole part of the binary
/// logarithm of the number of passphrases that can be drawn:
/// `floor(log2(list_length^words))`.
pub proof fn lemma_entropy_floor_is_logarithm(bits: nat, words: nat, list_length: nat)
    requires
        is_entropy_floor(bits, words, list_length),
    ensures
        log(2, pow(list_length as int, words)) == bits,
{
    lemma_log2_between(pow(list_length as int, words), bits);
}

/// The rounded-down entropy of a passphrase is one number and no other.
pub proof fn lemma_entropy_floor_is_unique(first: nat, second: nat, words: nat, list_length: nat)
    requires
        is_entropy_floor(first, words, list_length),
        is_entropy_floor(second, words, list_length),
    ensures
        first == second,
{
    if first < second {
        if first + 1 < second {
            lemma_pow2_strictly_increases(first + 1, second);
        }
    } else if second < first {
        if second + 1 < first {
            lemma_pow2_strictly_increases(second + 1, first);
        }
    }
}

/// The word count computed for a minimum entropy delivers it: the
/// rounded-down entropy of that many words is at least the minimum, and
/// that of one word fewer is below it.
pub proof fn lemma_needed_words_hold_the_bits(
    bits: nat,
    words: nat,
    list_length: nat,
    floor: nat,
    floor_of_fewer: nat,
)
    requires
        is_words_needed(words, bits, list_length),
        is_entropy_floor(floor, words, list_length),
        words > 0 ==> is_entropy_floor(floor_of_fewer, (words - 1) as nat, list_length),
    ensures
        floor >= bits,
        words > 0 ==> floor_of_fewer < bits,
{
    if floor < bits {
        if floor + 1 < bits {
            lemma_pow2_strictly_increases(floor + 1, bits);
        }
    }
    if words > 0 && floor_of_fewer >= bits {
        assert(!meets_entropy((words - 1) as nat, list_length, bits));
        if floor_of_fewer > bits {
            lemma_pow2_strictly_increases(bits, floor_of_fewer);
        }
    }
}

/// What a caller asks for: exactly one of a word count, a minimum entropy
/// and a number of strength steps.
#[derive(Clone, Copy, Debug, PartialEq, Eq)]
pub enum GenerationRequest {
    /// This many words, whatever entropy that gives.
    ExactWordCount(usize),
    /// As few words as hold at least this many bits.
    MinimumEntropyBits(usize),
    /// As few words as hold at least 80 bits and 20 more for each step.
    StrengthSteps(usize),
}

impl GenerationRequest {
    /// What `word_count` returns.
    pub open spec fn resolution(self, list_length: usize) -> Result<usize, ResolveError> {
        match self {
            GenerationRequest::ExactWordCount(count) => resolved(Some(count), None, 0, list_length),
            GenerationRequest::MinimumEntropyBits(bits) => resolved(
                None,
                Some(bits),
                0,
                list_length,
            ),
            GenerationRequest::StrengthSteps(steps) => resolved(None, None, steps, list_length),
        }
    }

    /// The number of words to draw from a list of `list_length` words.
    pub fn word_count(&self, list_length: usize) -> (result: Result<usize, ResolveError>)
        ensures
            result == self.resolution(list_length),
    {
        match *self {
            GenerationRequest::ExactWordCount(count) => resolve(Some(count), None, 0, list_length),
            GenerationRequest::MinimumEntropyBits(bits) => resolve(
                None,
                Some(bits),
                0,
                list_length,
            ),
            GenerationRequest::StrengthSteps(steps) => resolve(None, None, steps, list_length),
        }
    }
}

impl Default for GenerationRequest {
    /// The request of a caller who asks for nothing: the default minimum.
    fn default() -> (result: GenerationRequest)
        ensures
            result == GenerationRequest::MinimumEntropyBits(DEFAULT_MINIMUM_ENTROPY),
    {
        GenerationRequest::MinimumEntropyBits(DEFAULT_MINIMUM_ENTROPY)
    }
}

/// A given word count is the answer, whatever the other arguments are.
pub proof fn lemma_word_count_overrides(
    count: usize,
    minimum_entropy: Option<usize>,
    strength_steps: usize,
    list_length: usize,
)
    ensures
        resolved(Some(count), minimum_entropy, strength_steps, list_length) == Ok::<
            usize,
            ResolveError,
        >(count),
{
}

/// Strength steps with no minimum named ask for what a minimum of
/// `80 + 20 * steps` bits asks for.
pub proof fn lemma_strength_steps_are_bits(steps: usize, list_length: usize)
    requires
        DEFAULT_MINIMUM_ENTROPY + STRENGTH_INCREMENT * steps <= usize::MAX,
    ensures
        resolved(None, None, steps, list_length) == resolved(
            None,
            Some((DEFAULT_MINIMUM_ENTROPY + STRENGTH_INCREMENT * steps) as usize),
            0,
            list_length,
        ),
{
}

/// The word count computed for a minimum entropy is the smallest that meets
/// it: it meets it, and one word fewer does not.
pub proof fn lemma_resolved_is_least(
    minimum_entropy: Option<usize>,
    strength_steps: usize,
    list_length: usize,
)
    requires
        list_length >= 2,
        effective_entropy(minimum_entropy, strength_steps) <= usize::MAX,
    ensures
        resolved(None, minimum_entropy, strength_steps, list_length) is Ok,
        ({
            let words = resolved(None, minimum_entropy, strength_steps, list_length)->Ok_0 as nat;
            let bits = effective_entropy(minimum_entropy, strength_steps);
            &&& meets_entropy(words, list_length as nat, bits)
            &&& words > 0 ==> !meets_entropy((words - 1) as nat, list_length as nat, bits)
            &&& forall|fewer: nat| fewer < words ==> !meets_entropy(fewer, list_length as nat, bits)
        }),
{
    lemma_words_needed(effective_entropy(minimum_entropy, strength_steps), list_length as nat);
}

} // verus!
