use otobot::config::{count_setting, flag_setting, parse_count, Config, ConfigError};

fn cv(s: &str) -> Vec<char> {
    s.chars().collect()
}

#[test]
fn default_configuration_values() {
    let c = Config::default();
    assert_eq!(c.min_word_count, 2);
    assert_eq!(c.min_alphabet_word_count, 3);
    assert_eq!(c.should_follow_count, 10);
    assert_eq!(c.should_reference_follow_count, 2);
    assert_eq!(c.fetch_tweets_count, 100);
    assert_eq!(c.tweet_samples_count, 100);
    assert_eq!(c.allows_retry_count, 3);
    assert!(c.dry_run);
}

#[test]
fn parse_count_accepts_decimal_digits() {
    assert_eq!(parse_count(&cv("42")), Some(42));
    assert_eq!(parse_count(&cv("0")), Some(0));
    assert_eq!(parse_count(&cv("007")), Some(7));
}

#[test]
fn parse_count_accepts_one_leading_plus() {
    assert_eq!(parse_count(&cv("+42")), Some(42));
    assert_eq!(parse_count(&cv("+0")), Some(0));
    assert_eq!(parse_count(&cv("+")), None);
    assert_eq!(parse_count(&cv("++1")), None);
    assert_eq!(parse_count(&cv("1+")), None);
}

#[test]
fn parse_count_rejects_junk() {
    assert_eq!(parse_count(&cv("")), None);
    assert_eq!(parse_count(&cv("4a")), None);
    assert_eq!(parse_count(&cv("-1")), None);
    assert_eq!(parse_count(&cv(" 7")), None);
    assert_eq!(parse_count(&cv("99999999999999999999999")), None);
}

#[test]
fn parse_count_is_exact_at_the_machine_limit() {
    assert_eq!(parse_count(&cv("18446744073709551615")), Some(usize::MAX));
    assert_eq!(parse_count(&cv("18446744073709551616")), None);
}

#[test]
fn absent_count_setting_uses_default() {
    assert!(matches!(count_setting(&None, 10), Ok(10)));
}

#[test]
fn present_count_setting_must_parse() {
    assert!(matches!(count_setting(&Some(cv("5")), 10), Ok(5)));
    assert!(matches!(count_setting(&Some(cv("five")), 10), Err(ConfigError::Unparsable)));
}

#[test]
fn flag_setting_is_required_and_strict() {
    assert!(matches!(flag_setting(&None), Err(ConfigError::MissingRequired)));
    assert!(matches!(flag_setting(&Some(cv("true"))), Ok(true)));
    assert!(matches!(flag_setting(&Some(cv("false"))), Ok(false)));
    assert!(matches!(flag_setting(&Some(cv("True"))), Err(ConfigError::Unparsable)));
    assert!(matches!(flag_setting(&Some(cv(""))), Err(ConfigError::Unparsable)));
}
