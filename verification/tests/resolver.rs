use phraze::natural::Natural;
use phraze::resolver::{
    resolve, words_for_entropy, GenerationRequest, ResolveError, DEFAULT_MINIMUM_ENTROPY,
    STRENGTH_INCREMENT,
};

#[test]
fn eighty_bits_from_the_medium_list_take_seven_words() {
    assert_eq!(resolve(None, Some(80), 0, 8192), Ok(7));
}

#[test]
fn the_default_minimum_is_eighty_bits() {
    assert_eq!(DEFAULT_MINIMUM_ENTROPY, 80);
    assert_eq!(STRENGTH_INCREMENT, 20);
    assert_eq!(resolve(None, None, 0, 8192), Ok(7));
    assert_eq!(resolve(None, None, 0, 8192), resolve(None, Some(80), 0, 8192));
}

#[test]
fn eighty_bits_from_each_built_in_list_size() {
    assert_eq!(resolve(None, Some(80), 0, 17576), Ok(6));
    assert_eq!(resolve(None, Some(80), 0, 8192), Ok(7));
    assert_eq!(resolve(None, Some(80), 0, 7776), Ok(7));
    assert_eq!(resolve(None, Some(80), 0, 1633), Ok(8));
    assert_eq!(resolve(None, Some(80), 0, 1296), Ok(8));
}

#[test]
fn a_given_word_count_is_returned_unchanged() {
    assert_eq!(resolve(Some(4), None, 0, 1296), Ok(4));
    assert_eq!(resolve(Some(4), Some(80), 3, 8192), Ok(4));
    assert_eq!(resolve(Some(1), Some(1000), 0, 2), Ok(1));
    assert_eq!(resolve(Some(0), None, 0, 8192), Ok(0));
    assert_eq!(resolve(Some(9), None, 0, 0), Ok(9));
    assert_eq!(resolve(Some(9), None, 0, 1), Ok(9));
    assert_eq!(resolve(Some(usize::MAX), Some(usize::MAX), usize::MAX, 8192), Ok(usize::MAX));
}

#[test]
fn each_strength_step_adds_twenty_bits() {
    assert_eq!(resolve(None, None, 1, 8192), Ok(8));
    assert_eq!(resolve(None, None, 2, 8192), Ok(10));
    for list_length in [2usize, 3, 1296, 1633, 7776, 8192, 17576] {
        for steps in 0usize..12 {
            assert_eq!(
                resolve(None, None, steps, list_length),
                resolve(None, Some(80 + 20 * steps), 0, list_length)
            );
        }
    }
}

#[test]
fn a_minimum_and_strength_steps_add_up() {
    assert_eq!(resolve(None, Some(60), 1, 8192), Ok(7));
    assert_eq!(resolve(None, Some(60), 2, 8192), resolve(None, Some(100), 0, 8192));
    assert_eq!(resolve(None, Some(0), 1, 1024), Ok(2));
}

#[test]
fn a_list_of_two_words_gives_one_bit_a_word() {
    assert_eq!(resolve(None, Some(80), 0, 2), Ok(80));
    assert_eq!(resolve(None, None, 0, 2), Ok(80));
    assert_eq!(resolve(None, Some(1), 0, 2), Ok(1));
    assert_eq!(resolve(None, Some(1000), 0, 2), Ok(1000));
}

#[test]
fn a_list_of_fewer_than_two_words_is_refused() {
    assert_eq!(resolve(None, Some(80), 0, 1), Err(ResolveError::ListTooShort));
    assert_eq!(resolve(None, Some(80), 0, 0), Err(ResolveError::ListTooShort));
    assert_eq!(resolve(None, None, 0, 1), Err(ResolveError::ListTooShort));
    assert_eq!(resolve(None, None, 3, 0), Err(ResolveError::ListTooShort));
    assert_eq!(words_for_entropy(80, 1), Err(ResolveError::ListTooShort));
    assert_eq!(words_for_entropy(0, 0), Err(ResolveError::ListTooShort));
    assert_eq!(resolve(None, Some(usize::MAX), 1, 1), Err(ResolveError::ListTooShort));
}

#[test]
fn more_bits_than_a_machine_word_counts_are_refused() {
    assert_eq!(resolve(None, Some(usize::MAX), 1, 8192), Err(ResolveError::EntropyTooLarge));
    assert_eq!(resolve(None, None, usize::MAX, 8192), Err(ResolveError::EntropyTooLarge));
    assert_eq!(
        resolve(None, Some(usize::MAX - 19), 1, 8192),
        Err(ResolveError::EntropyTooLarge)
    );
    assert_eq!(resolve(None, None, usize::MAX / 20, 2), Err(ResolveError::EntropyTooLarge));
}

#[test]
fn no_bits_take_no_words() {
    assert_eq!(resolve(None, Some(0), 0, 8192), Ok(0));
    assert_eq!(words_for_entropy(0, 2), Ok(0));
}

#[test]
fn whole_bits_a_word_round_up_only_when_needed() {
    assert_eq!(words_for_entropy(13, 8192), Ok(1));
    assert_eq!(words_for_entropy(14, 8192), Ok(2));
    assert_eq!(words_for_entropy(78, 8192), Ok(6));
    assert_eq!(words_for_entropy(79, 8192), Ok(7));
    assert_eq!(words_for_entropy(91, 8192), Ok(7));
    assert_eq!(words_for_entropy(92, 8192), Ok(8));
    assert_eq!(words_for_entropy(1, 8192), Ok(1));
    assert_eq!(words_for_entropy(64, 1usize << 32), Ok(2));
    assert_eq!(words_for_entropy(65, 1usize << 32), Ok(3));
    assert_eq!(words_for_entropy(128, 1usize << 32), Ok(4));
}

#[test]
fn a_fraction_of_a_bit_short_takes_one_more_word() {
    // 6^12 = 2_176_782_336 is just above 2^31 = 2_147_483_648.
    assert_eq!(words_for_entropy(31, 6), Ok(12));
    assert_eq!(words_for_entropy(32, 6), Ok(13));
    // 3^2 = 9 is just above 2^3, and 3^5 = 243 just below 2^8.
    assert_eq!(words_for_entropy(3, 3), Ok(2));
    assert_eq!(words_for_entropy(7, 3), Ok(5));
    assert_eq!(words_for_entropy(8, 3), Ok(6));
    // 5^3 = 125 is just below 2^7.
    assert_eq!(words_for_entropy(7, 5), Ok(4));
    assert_eq!(words_for_entropy(6, 5), Ok(3));
}

#[test]
fn many_bits_are_counted_exactly() {
    assert_eq!(words_for_entropy(1000, 17576), Ok(71));
    assert_eq!(words_for_entropy(1000, 8192), Ok(77));
    assert_eq!(words_for_entropy(4096, 2), Ok(4096));
    assert_eq!(words_for_entropy(4096, 4), Ok(2048));
    assert_eq!(words_for_entropy(4097, 4), Ok(2049));
    assert_eq!(words_for_entropy(640, usize::MAX), Ok(11));
}

fn power(base: u128, exponent: usize) -> u128 {
    let mut result: u128 = 1;
    for _ in 0..exponent {
        result *= base;
    }
    result
}

#[test]
fn the_word_count_is_the_smallest_that_meets_the_minimum() {
    for list_length in 2usize..=40 {
        for bits in 0usize..=100 {
            let words = words_for_entropy(bits, list_length).unwrap();
            assert!(words <= bits);
            assert!(power(list_length as u128, words) >= 1u128 << bits);
            if words > 0 {
                assert!(power(list_length as u128, words - 1) < 1u128 << bits);
            }
        }
    }
}

#[test]
fn the_word_count_agrees_with_the_logarithm() {
    for list_length in [1296usize, 1633, 7776, 8192, 17576] {
        for bits in 1usize..=300 {
            let words = words_for_entropy(bits, list_length).unwrap();
            let per_word = (list_length as f64).log2();
            assert!(words as f64 * per_word >= bits as f64 - 1e-9);
            assert!((words - 1) as f64 * per_word < bits as f64 + 1e-9);
        }
    }
}

#[test]
fn a_request_resolves_as_its_options_do() {
    assert_eq!(GenerationRequest::ExactWordCount(4).word_count(1296), Ok(4));
    assert_eq!(GenerationRequest::ExactWordCount(4).word_count(0), Ok(4));
    assert_eq!(GenerationRequest::MinimumEntropyBits(80).word_count(8192), Ok(7));
    assert_eq!(GenerationRequest::MinimumEntropyBits(100).word_count(8192), Ok(8));
    assert_eq!(GenerationRequest::StrengthSteps(1).word_count(8192), Ok(8));
    assert_eq!(GenerationRequest::StrengthSteps(0).word_count(8192), Ok(7));
    assert_eq!(
        GenerationRequest::MinimumEntropyBits(80).word_count(1),
        Err(ResolveError::ListTooShort)
    );
    assert_eq!(
        GenerationRequest::StrengthSteps(usize::MAX).word_count(8192),
        Err(ResolveError::EntropyTooLarge)
    );
}

#[test]
fn the_default_request_asks_for_eighty_bits() {
    assert_eq!(GenerationRequest::default(), GenerationRequest::MinimumEntropyBits(80));
    assert_eq!(GenerationRequest::default().word_count(8192), Ok(7));
}

#[test]
fn a_natural_number_is_compared_with_powers_of_two() {
    let one = Natural::one();
    assert!(one.reaches_pow2(0));
    assert!(!one.reaches_pow2(1));
    let mut number = Natural::one();
    for _ in 0..10 {
        number = number.times(8192);
    }
    // 8192^10 = 2^130
    assert!(number.reaches_pow2(0));
    assert!(number.reaches_pow2(64));
    assert!(number.reaches_pow2(129));
    assert!(number.reaches_pow2(130));
    assert!(!number.reaches_pow2(131));
    assert!(!number.reaches_pow2(192));
    assert!(!number.reaches_pow2(1000));
}

#[test]
fn a_natural_number_carries_into_the_next_limb() {
    let number = Natural::one().times(u64::MAX).times(u64::MAX);
    // (2^64 - 1)^2 = 2^128 - 2^65 + 1 lies between 2^127 and 2^128.
    assert!(number.reaches_pow2(127));
    assert!(!number.reaches_pow2(128));
    let more = number.times(2);
    assert!(more.reaches_pow2(128));
    assert!(!more.reaches_pow2(129));
    let nothing = number.times(0);
    assert!(!nothing.reaches_pow2(0));
}
