use phraze::engine::{generate, join_words, validate_request, GenerateError};
use phraze::resolver::resolve;
use phraze::separator::SeparatorSpec;
use rand::rngs::StdRng;
use rand::SeedableRng;

fn words(list: &[&str]) -> Vec<String> {
    list.iter().map(|word| word.to_string()).collect()
}

fn hyphen() -> SeparatorSpec {
    SeparatorSpec::Literal(String::from("-"))
}

#[test]
fn words_are_joined_with_a_separator_in_every_gap() {
    assert_eq!(join_words(&words(&["a", "b", "c"]), &words(&["-", "+"])), "a-b+c");
    assert_eq!(join_words(&words(&["one"]), &words(&[])), "one");
    assert_eq!(join_words(&words(&["one", "two"]), &words(&[""])), "onetwo");
    assert_eq!(join_words(&words(&["", ""]), &words(&["/"])), "/");
    assert_eq!(
        join_words(&words(&["über", "naïve", "日本"]), &words(&[" · ", "→"])),
        "über · naïve→日本"
    );
}

#[test]
fn a_passphrase_of_no_words_is_refused() {
    let mut rng = StdRng::seed_from_u64(1);
    let list = words(&["alpha", "beta"]);
    assert_eq!(generate(&mut rng, 0, &hyphen(), false, &list), Err(GenerateError::NoWords));
    assert_eq!(generate(&mut rng, 0, &hyphen(), true, &Vec::new()), Err(GenerateError::NoWords));
}

#[test]
fn an_empty_word_list_is_refused() {
    let mut rng = StdRng::seed_from_u64(2);
    assert_eq!(
        generate(&mut rng, 1, &hyphen(), false, &Vec::new()),
        Err(GenerateError::EmptyWordList)
    );
    assert_eq!(
        generate(&mut rng, 7, &SeparatorSpec::Numeric, true, &Vec::new()),
        Err(GenerateError::EmptyWordList)
    );
}

#[test]
fn a_passphrase_has_as_many_words_as_asked_for() {
    let mut rng = StdRng::seed_from_u64(3);
    let list = words(&["alpha", "beta", "gamma", "delta", "epsilon"]);
    for word_count in 1usize..=40 {
        let passphrase = generate(&mut rng, word_count, &hyphen(), false, &list).unwrap();
        let parts: Vec<&str> = passphrase.split('-').collect();
        assert_eq!(parts.len(), word_count);
        assert_eq!(passphrase.matches('-').count(), word_count - 1);
        for part in parts {
            assert!(list.iter().any(|word| word == part));
        }
    }
}

#[test]
fn a_passphrase_of_one_word_has_no_separator() {
    let mut rng = StdRng::seed_from_u64(4);
    let list = words(&["alpha", "beta", "gamma"]);
    for _ in 0..20 {
        let passphrase = generate(&mut rng, 1, &hyphen(), false, &list).unwrap();
        assert!(list.contains(&passphrase));
    }
}

#[test]
fn a_list_of_one_word_gives_that_word_over_and_over() {
    let mut rng = StdRng::seed_from_u64(5);
    let list = words(&["only"]);
    assert_eq!(generate(&mut rng, 3, &hyphen(), false, &list), Ok(String::from("only-only-only")));
    assert_eq!(generate(&mut rng, 2, &hyphen(), true, &list), Ok(String::from("Only-Only")));
}

#[test]
fn an_empty_separator_runs_the_words_together() {
    let mut rng = StdRng::seed_from_u64(6);
    let list = words(&["ab"]);
    let empty = SeparatorSpec::Literal(String::new());
    assert_eq!(generate(&mut rng, 4, &empty, false, &list), Ok(String::from("abababab")));
    assert_eq!(generate(&mut rng, 4, &empty, true, &list), Ok(String::from("AbAbAbAb")));
}

#[test]
fn title_case_is_applied_to_each_word() {
    let mut rng = StdRng::seed_from_u64(7);
    let list = words(&["alpha", "beta", "gamma", "éclair"]);
    let titled = words(&["Alpha", "Beta", "Gamma", "Éclair"]);
    for _ in 0..50 {
        let passphrase = generate(&mut rng, 6, &hyphen(), true, &list).unwrap();
        let parts: Vec<&str> = passphrase.split('-').collect();
        assert_eq!(parts.len(), 6);
        for part in parts {
            assert!(titled.iter().any(|word| word == part));
            assert!(part.chars().next().unwrap().is_uppercase());
            assert!(part.chars().skip(1).all(|c| c.is_lowercase()));
        }
    }
}

#[test]
fn without_title_case_words_keep_their_casing() {
    let mut rng = StdRng::seed_from_u64(8);
    let list = words(&["alpha", "Beta", "GAMMA", "dElTa"]);
    for _ in 0..50 {
        let passphrase = generate(&mut rng, 5, &hyphen(), false, &list).unwrap();
        for part in passphrase.split('-') {
            assert!(list.iter().any(|word| word == part));
        }
    }
}

#[test]
fn numeric_separators_are_single_digits() {
    let mut rng = StdRng::seed_from_u64(9);
    let list = words(&["alpha", "beta", "gamma"]);
    for _ in 0..50 {
        let passphrase = generate(&mut rng, 8, &SeparatorSpec::Numeric, false, &list).unwrap();
        let parts: Vec<&str> = passphrase.split(|c: char| c.is_ascii_digit()).collect();
        assert_eq!(parts.len(), 8);
        assert_eq!(passphrase.chars().filter(|c| c.is_ascii_digit()).count(), 7);
        for part in parts {
            assert!(list.iter().any(|word| word == part));
        }
    }
}

#[test]
fn symbolic_separators_come_from_the_alphabet() {
    let symbols = "!@#$%&*(){}[]\\:;'<>?,./_-+=";
    let mut rng = StdRng::seed_from_u64(10);
    let list = words(&["alpha", "beta", "gamma"]);
    for _ in 0..50 {
        let passphrase = generate(&mut rng, 8, &SeparatorSpec::Symbolic, false, &list).unwrap();
        let parts: Vec<&str> = passphrase.split(|c: char| symbols.contains(c)).collect();
        assert_eq!(parts.len(), 8);
        assert_eq!(passphrase.chars().filter(|c| !c.is_ascii_lowercase()).count(), 7);
        for part in parts {
            assert!(list.iter().any(|word| word == part));
        }
    }
}

#[test]
fn mixed_separators_blend_digits_and_symbols_within_one_passphrase() {
    let symbols = "!@#$%&*(){}[]\\:;'<>?,./_-+=";
    let mut rng = StdRng::seed_from_u64(16);
    let list = words(&["alpha", "beta", "gamma"]);
    let passphrase = generate(&mut rng, 201, &SeparatorSpec::Mixed, false, &list).unwrap();
    let digits = passphrase.chars().filter(|c| c.is_ascii_digit()).count();
    let others = passphrase.chars().filter(|c| symbols.contains(*c)).count();
    assert_eq!(digits + others, 200);
    assert!(digits >= 60);
    assert!(others >= 60);
    let parts: Vec<&str> = passphrase
        .split(|c: char| c.is_ascii_digit() || symbols.contains(c))
        .collect();
    assert_eq!(parts.len(), 201);
    for part in parts {
        assert!(list.iter().any(|word| word == part));
    }
}

#[test]
fn one_generator_gives_different_passphrases_in_turn() {
    let mut rng = StdRng::seed_from_u64(17);
    let list: Vec<String> = (0..8192).map(|i| format!("w{}", i)).collect();
    let first = generate(&mut rng, 7, &hyphen(), false, &list).unwrap();
    let second = generate(&mut rng, 7, &hyphen(), false, &list).unwrap();
    assert_ne!(first, second);
}

#[test]
fn the_same_seed_gives_the_same_passphrase() {
    let list: Vec<String> = (0..8192).map(|i| format!("w{}", i)).collect();
    let mut one = StdRng::seed_from_u64(18);
    let mut other = StdRng::seed_from_u64(18);
    assert_eq!(
        generate(&mut one, 7, &SeparatorSpec::Mixed, true, &list),
        generate(&mut other, 7, &SeparatorSpec::Mixed, true, &list)
    );
}

fn chi_square_of_draws(list_length: usize, draws: usize, seed: u64) -> f64 {
    let mut rng = StdRng::seed_from_u64(seed);
    let list: Vec<String> = (0..list_length).map(|i| format!("w{}", i)).collect();
    let passphrase = generate(&mut rng, draws, &hyphen(), false, &list).unwrap();
    let mut counts = vec![0usize; list_length];
    for part in passphrase.split('-') {
        let index: usize = part[1..].parse().unwrap();
        counts[index] += 1;
    }
    assert_eq!(counts.iter().sum::<usize>(), draws);
    let expected = draws as f64 / list_length as f64;
    counts
        .iter()
        .map(|&count| (count as f64 - expected).powi(2) / expected)
        .sum()
}

#[test]
fn words_of_a_list_of_three_come_out_evenly() {
    // two degrees of freedom: 13.82 is passed once in a thousand runs
    assert!(chi_square_of_draws(3, 100_000, 19) < 13.82);
}

#[test]
fn words_of_a_list_of_seven_come_out_evenly() {
    // six degrees of freedom: 22.46 is passed once in a thousand runs
    assert!(chi_square_of_draws(7, 100_000, 20) < 22.46);
}

#[test]
fn every_word_of_a_list_can_come_out() {
    let mut rng = StdRng::seed_from_u64(21);
    let list: Vec<String> = (0..50).map(|i| format!("w{}", i)).collect();
    let passphrase = generate(&mut rng, 5000, &hyphen(), false, &list).unwrap();
    for word in &list {
        assert!(passphrase.split('-').any(|part| part == word));
    }
}

#[test]
fn a_list_of_two_words_works_from_end_to_end() {
    let list = words(&["heads", "tails"]);
    let word_count = resolve(None, Some(80), 0, list.len()).unwrap();
    assert_eq!(word_count, 80);
    let mut rng = StdRng::seed_from_u64(22);
    let passphrase = generate(&mut rng, word_count, &hyphen(), false, &list).unwrap();
    let parts: Vec<&str> = passphrase.split('-').collect();
    assert_eq!(parts.len(), 80);
    assert!(parts.iter().all(|part| *part == "heads" || *part == "tails"));
    assert!(parts.iter().any(|part| *part == "heads"));
    assert!(parts.iter().any(|part| *part == "tails"));
}

#[test]
fn the_medium_list_works_from_end_to_end() {
    let list: Vec<String> = (0..8192).map(|i| format!("word{}", i)).collect();
    let word_count = resolve(None, Some(80), 0, list.len()).unwrap();
    assert_eq!(word_count, 7);
    let mut rng = StdRng::seed_from_u64(23);
    let passphrase = generate(&mut rng, word_count, &hyphen(), false, &list).unwrap();
    assert_eq!(passphrase.split('-').count(), 7);
}

#[test]
fn a_request_needs_a_word_and_a_list() {
    assert_eq!(validate_request(0, 8192), Err(GenerateError::NoWords));
    assert_eq!(validate_request(0, 0), Err(GenerateError::NoWords));
    assert_eq!(validate_request(1, 0), Err(GenerateError::EmptyWordList));
    assert_eq!(validate_request(usize::MAX, 0), Err(GenerateError::EmptyWordList));
    assert_eq!(validate_request(1, 1), Ok(()));
    assert_eq!(validate_request(7, 8192), Ok(()));
    assert_eq!(validate_request(usize::MAX, usize::MAX), Ok(()));
}
