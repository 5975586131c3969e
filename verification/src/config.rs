//! Process-lifetime configuration: counts, thresholds, the retry bound and
//! the dry-run flag. Values arrive already parsed; parsing the environment
//! is the caller's business.

use vstd::prelude::*;

verus! {

broadcast use vstd::seq_lib::group_seq_properties;

/// A setting that cannot be used: a required one is absent, or a present
/// one does not parse.
#[derive(Debug)]
pub enum ConfigError {
    MissingRequired,
    Unparsable,
}

/// A decimal digit.
pub open spec fn is_digit(c: char) -> bool {
    '0' <= c && c <= '9'
}

/// Only decimal digits in `s`.
pub open spec fn all_digits(s: Seq<char>) -> bool {
    forall|i: int| 0 <= i < s.len() ==> is_digit(#[trigger] s[i])
}

/// A digit's numeric value.
pub open spec fn digit_val(c: char) -> int {
    (c as u32) as int - 48
}

/// The number a digit string denotes, most significant digit first.
pub open spec fn digits_value(s: Seq<char>) -> int
    decreases s.len(),
{
    if s.len() == 0 {
        0
    } else {
        10 * digits_value(s.drop_last()) + digit_val(s.last())
    }
}

/// A digit string denotes nothing negative.
proof fn lemma_digits_value_nonneg(s: Seq<char>)
    requires
        all_digits(s),
    ensures
        digits_value(s) >= 0,
    decreases s.len(),
{
    if s.len() > 0 {
        assert(all_digits(s.drop_last()));
        lemma_digits_value_nonneg(s.drop_last());
    }
}

/// Every prefix of a digit string denotes at most the whole string's value.
proof fn lemma_digits_prefix_le(s: Seq<char>, j: int)
    requires
        all_digits(s),
        0 <= j <= s.len(),
    ensures
        digits_value(s.take(j)) <= digits_value(s),
    decreases s.len() - j,
{
    if j == s.len() {
        assert(s.take(j) =~= s);
    } else {
        assert(s.take(j + 1).drop_last() =~= s.take(j));
        assert(s.take(j + 1).last() == s[j]);
        assert(all_digits(s.take(j)));
        lemma_digits_value_nonneg(s.take(j));
        assert(digits_value(s.take(j + 1)) == 10 * digits_value(s.take(j)) + digit_val(s[j]));
        lemma_digits_prefix_le(s, j + 1);
    }
}

/// The numeral of a count setting: what stands after one optional leading
/// plus sign.
pub open spec fn digits_part(s: Seq<char>) -> Seq<char> {
    if s.len() > 0 && s[0] == '+' {
        s.skip(1)
    } else {
        s
    }
}

/// When a count setting parses: after one optional leading `+`, a
/// non-empty string of decimal digits whose value fits the machine word.
pub open spec fn count_parses(s: Seq<char>) -> bool {
    &&& digits_part(s).len() > 0
    &&& all_digits(digits_part(s))
    &&& digits_value(digits_part(s)) <= usize::MAX
}

/// Parses a count setting, and nothing else.
pub fn parse_count(s: &Vec<char>) -> (r: Option<usize>)
    ensures
        (r matches Some(v) ==> count_parses(s@) && v as int == digits_value(digits_part(s@))),
        (r is None) <==> !count_parses(s@),
{
    let start: usize = if s.len() > 0 && s[0] == '+' {
        1
    } else {
        0
    };
    let ghost t = digits_part(s@);
    proof {
        assert(s@.skip(0) =~= s@);
        assert(t =~= s@.skip(start as int));
    }
    if s.len() == start {
        return None;
    }
    let mut acc: usize = 0;
    let mut i: usize = start;
    proof {
        assert(t.take(0) =~= Seq::<char>::empty());
    }
    while i < s.len()
        invariant
            start < s@.len(),
            t == digits_part(s@),
            t == s@.skip(start as int),
            start <= i <= s@.len(),
            all_digits(t.take(i - start)),
            acc as int == digits_value(t.take(i - start)),
        decreases s@.len() - i,
    {
        let ghost j = i - start;
        proof {
            assert(t[j] == s@[i as int]);
        }
        let c = s[i];
        if !('0' <= c && c <= '9') {
            proof {
                assert(!is_digit(t[j]));
            }
            return None;
        }
        let d: usize = (c as u32 - 48) as usize;
        proof {
            assert(t.take(j + 1).drop_last() =~= t.take(j));
            assert(t.take(j + 1).last() == t[j]);
            assert(all_digits(t.take(j + 1)));
            assert(digits_value(t.take(j + 1)) == 10 * digits_value(t.take(j)) + digit_val(t[j]));
            assert(0 <= digit_val(t[j]) <= 9);
        }
        if acc > (usize::MAX - d) / 10 {
            proof {
                let a = acc as int;
                let dd = d as int;
                let m = usize::MAX as int;
                assert(a * 10 + dd > m) by (nonlinear_arith)
                    requires
                        a > (m - dd) / 10,
                        0 <= dd <= 9,
                        m >= 9,
                ;
                if all_digits(t) {
                    lemma_digits_prefix_le(t, j + 1);
                }
            }
            return None;
        }
        proof {
            let a = acc as int;
            let dd = d as int;
            let m = usize::MAX as int;
            assert(a * 10 + dd <= m) by (nonlinear_arith)
                requires
                    a <= (m - dd) / 10,
                    0 <= dd <= 9,
                    a >= 0,
                    m >= 9,
            ;
        }
        acc = acc * 10 + d;
        i = i + 1;
    }
    proof {
        assert(t.take(t.len() as int) =~= t);
    }
    Some(acc)
}

/// The two spellings a flag setting accepts.
pub open spec fn true_chars() -> Seq<char> {
    seq!['t', 'r', 'u', 'e']
}

/// See `true_chars`.
pub open spec fn false_chars() -> Seq<char> {
    seq!['f', 'a', 'l', 's', 'e']
}

/// A count setting: absent means the default; a present value must be a
/// machine-word decimal number, with one optional leading `+`, or the run
/// must not start.
pub fn count_setting(raw: &Option<Vec<char>>, default_value: usize) -> (r: Result<
    usize,
    ConfigError,
>)
    ensures
        (raw is None ==> (r matches Ok(v) && v == default_value)),
        (raw matches Some(s) ==> (if count_parses(s@) {
            r matches Ok(v) && v as int == digits_value(digits_part(s@))
        } else {
            r matches Err(e) && e is Unparsable
        })),
{
    match raw {
        None => Ok(default_value),
        Some(s) => match parse_count(s) {
            Some(v) => Ok(v),
            None => Err(ConfigError::Unparsable),
        },
    }
}

/// A required flag setting: absent is fatal; a present value must spell
/// `true` or `false` exactly.
pub fn flag_setting(raw: &Option<Vec<char>>) -> (r: Result<bool, ConfigError>)
    ensures
        (raw is None ==> (r matches Err(e) && e is MissingRequired)),
        (raw matches Some(s) ==> (if s@ == true_chars() {
            r matches Ok(b) && b == true
        } else if s@ == false_chars() {
            r matches Ok(b) && b == false
        } else {
            r matches Err(e) && e is Unparsable
        })),
{
    match raw {
        None => Err(ConfigError::MissingRequired),
        Some(s) => {
            let t: Vec<char> = vec!['t', 'r', 'u', 'e'];
            let f: Vec<char> = vec!['f', 'a', 'l', 's', 'e'];
            proof {
                assert(t@ =~= true_chars());
                assert(f@ =~= false_chars());
            }
            if crate::text::chars_eq(s, &t) {
                Ok(true)
            } else if crate::text::chars_eq(s, &f) {
                Ok(false)
            } else {
                Err(ConfigError::Unparsable)
            }
        },
    }
}

/// Immutable configuration for one run.
#[derive(Clone, Copy, Debug)]
pub struct Config {
    /// Minimum grapheme count for an accepted noun token.
    pub min_word_count: usize,
    /// Minimum grapheme count for an accepted out-of-vocabulary token.
    pub min_alphabet_word_count: usize,
    /// How many follower-difference accounts to follow per run.
    pub should_follow_count: usize,
    /// How many reference-account follows to mirror per run.
    pub should_reference_follow_count: usize,
    /// How many recent posts to fetch.
    pub fetch_tweets_count: usize,
    /// How many normalized posts the tokenizer may see.
    pub tweet_samples_count: usize,
    /// How many additional submission attempts are allowed after the first.
    pub allows_retry_count: usize,
    /// When set, the publisher reports success without submitting anything.
    pub dry_run: bool,
}

impl Config {
    /// Builds a configuration from already-validated values.
    pub fn new(
        min_word_count: usize,
        min_alphabet_word_count: usize,
        should_follow_count: usize,
        should_reference_follow_count: usize,
        fetch_tweets_count: usize,
        tweet_samples_count: usize,
        allows_retry_count: usize,
        dry_run: bool,
    ) -> (c: Config)
        ensures
            c.min_word_count == min_word_count,
            c.min_alphabet_word_count == min_alphabet_word_count,
            c.should_follow_count == should_follow_count,
            c.should_reference_follow_count == should_reference_follow_count,
            c.fetch_tweets_count == fetch_tweets_count,
            c.tweet_samples_count == tweet_samples_count,
            c.allows_retry_count == allows_retry_count,
            c.dry_run == dry_run,
    {
        Config {
            min_word_count,
            min_alphabet_word_count,
            should_follow_count,
            should_reference_follow_count,
            fetch_tweets_count,
            tweet_samples_count,
            allows_retry_count,
            dry_run,
        }
    }
}

impl Default for Config {
    /// The default settings; the dry-run flag has no default and is set
    /// here to the safe value.
    fn default() -> (c: Config)
        ensures
            c.min_word_count == 2,
            c.min_alphabet_word_count == 3,
            c.should_follow_count == 10,
            c.should_reference_follow_count == 2,
            c.fetch_tweets_count == 100,
            c.tweet_samples_count == 100,
            c.allows_retry_count == 3,
            c.dry_run == true,
    {
        Config {
            min_word_count: 2,
            min_alphabet_word_count: 3,
            should_follow_count: 10,
            should_reference_follow_count: 2,
            fetch_tweets_count: 100,
            tweet_samples_count: 100,
            allows_retry_count: 3,
            dry_run: true,
        }
    }
}

} // verus!
