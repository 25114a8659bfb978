//! Passphrases of randomly chosen words with a guaranteed lower bound on
//! their entropy.
//!
//! A caller settles how many words a passphrase takes (`resolver`), and has
//! one made of that many words drawn from a word list (`engine`), with a
//! fixed or a random separator in every gap (`separator`) and each word in
//! title case if so wished (`casing`). The word list is one of the built-in
//! lists (`lists`) or made from the lines of a text (`word_list`,
//! `normalization`). All draws come from one generator that the caller hands
//! in (`random`).

pub mod casing;
pub mod engine;
pub mod lists;
pub mod natural;
pub mod normalization;
pub mod random;
pub mod resolver;
pub mod separator;
pub mod text;
pub mod word_list;
