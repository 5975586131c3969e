use otobot::config::Config;
use otobot::tokens::{accept_token, extract_candidates, filter_tokens, ExtractError, Token};

fn cv(s: &str) -> Vec<char> {
    s.chars().collect()
}

fn tok(surface: &str, classification: &str) -> Token {
    Token { surface: cv(surface), classification: cv(classification) }
}

fn cfg(min_word: usize, min_alpha: usize) -> Config {
    Config::new(min_word, min_alpha, 10, 2, 100, 100, 3, true)
}

#[test]
fn one_grapheme_noun_rejected_two_accepted() {
    let c = cfg(2, 3);
    assert!(!accept_token(&tok("あ", "名詞"), &c));
    assert!(accept_token(&tok("あい", "名詞"), &c));
}

#[test]
fn whitespace_only_unknown_always_rejected() {
    assert!(!accept_token(&tok("   ", "UNK"), &cfg(2, 3)));
    assert!(!accept_token(&tok(" \t\r\n", "UNK"), &cfg(2, 3)));
    // even with no length threshold at all
    assert!(!accept_token(&tok("   ", "UNK"), &cfg(2, 0)));
    assert!(!accept_token(&tok("", "UNK"), &cfg(2, 0)));
}

#[test]
fn unknown_token_needs_alphabet_threshold() {
    assert!(accept_token(&tok("abc", "UNK"), &cfg(2, 3)));
    assert!(!accept_token(&tok("abc", "UNK"), &cfg(2, 4)));
}

#[test]
fn other_classifications_discarded() {
    let c = cfg(1, 1);
    assert!(!accept_token(&tok("走る", "動詞"), &c));
    assert!(!accept_token(&tok("と", "助詞"), &c));
    assert!(!accept_token(&tok("ながい", ""), &c));
}

#[test]
fn length_is_measured_in_graphemes_not_code_units() {
    // Two code points, one user-perceived character: a kana with a
    // combining voicing mark counts as a single grapheme.
    let c2 = cfg(2, 3);
    let c1 = cfg(1, 3);
    assert!(!accept_token(&tok("あ\u{3099}", "名詞"), &c2));
    assert!(accept_token(&tok("あ\u{3099}", "名詞"), &c1));
    // and multi-byte characters are not counted by bytes
    assert!(accept_token(&tok("です", "名詞"), &c2));
    assert!(!accept_token(&tok("です", "名詞"), &cfg(3, 3)));
}

#[test]
fn filter_keeps_accepted_surfaces_in_order() {
    let toks = vec![
        tok("余波", "名詞"),
        tok("  ", "UNK"),
        tok("を", "助詞"),
        tok("波", "名詞"),
        tok("mad", "UNK"),
    ];
    let pool = filter_tokens(&toks, &cfg(2, 3));
    let got: Vec<String> = pool.iter().map(|w| w.iter().collect()).collect();
    assert_eq!(got, vec!["余波".to_string(), "mad".to_string()]);
}

#[test]
fn filter_of_nothing_is_empty() {
    let pool = filter_tokens(&vec![], &cfg(2, 3));
    assert!(pool.is_empty());
}

#[test]
fn extraction_of_no_texts_is_an_empty_pool() {
    // Nothing to segment: the stage owes success without touching the
    // segmenter, and the pool is empty.
    let pool = extract_candidates(&vec![], &cfg(2, 3)).unwrap();
    assert!(pool.is_empty());
}

#[test]
fn segmenter_is_exercised() {
    // Runs the segmenter wrapper; in a build without an embedded
    // dictionary it reports itself unavailable, and with one it yields a
    // pool of accepted shapes. Both are within its contract.
    match extract_candidates(&vec![cv("これはテストです")], &cfg(2, 3)) {
        Ok(_pool) => {}
        Err(ExtractError::TokenizerUnavailable) => {}
    }
}
