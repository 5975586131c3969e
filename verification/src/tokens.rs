//! The morphological extractor: normalized text is segmented by a
//! dictionary tokenizer, and each token is kept or dropped by its primary
//! classification and its length in grapheme clusters.
//!
//! A noun is kept when it has at least `min_word_count` graphemes. An
//! out-of-vocabulary token is kept when something besides whitespace is
//! left in it and it has at least `min_alphabet_word_count` graphemes.
//! Every other classification is dropped.

use vstd::prelude::*;
use unicode_segmentation::UnicodeSegmentation;
use crate::config::Config;
use crate::text::{chars_eq, views_of};

verus! {

broadcast use vstd::seq_lib::group_seq_properties;

/// One token out of the segmenter: its surface text and the first entry of
/// its dictionary detail row.
pub struct Token {
    pub surface: Vec<char>,
    pub classification: Vec<char>,
}

/// The segmenter's noun classification.
pub open spec fn noun_class() -> Seq<char> {
    seq!['名', '詞']
}

/// The segmenter's classification for out-of-vocabulary tokens.
pub open spec fn unknown_class() -> Seq<char> {
    seq!['U', 'N', 'K']
}

/// The whitespace characters an out-of-vocabulary artifact may consist of.
pub open spec fn is_space_char(c: char) -> bool {
    c == ' ' || c == '\t' || c == '\n' || c == '\u{b}' || c == '\u{c}' || c == '\r'
}

/// Nothing besides whitespace in `s`; true of the empty sequence.
pub open spec fn all_space(s: Seq<char>) -> bool {
    forall|i: int| 0 <= i < s.len() ==> is_space_char(#[trigger] s[i])
}

/// How many user-perceived characters `s` has.
pub uninterp spec fn grapheme_count_of(s: Seq<char>) -> nat;

/// Relies on unicode_segmentation::UnicodeSegmentation::graphemes over
/// extended grapheme clusters: the count of user-perceived characters,
/// a function of the characters alone; an empty text has none.
#[verifier::external_body]
pub fn grapheme_count(s: &Vec<char>) -> (n: usize)
    ensures
        n == grapheme_count_of(s@),
        s@.len() == 0 ==> n == 0,
{
    let owned: String = s.iter().collect();
    owned.as_str().graphemes(true).count()
}

/// The acceptance rule for one token.
pub open spec fn spec_accepts(surface: Seq<char>, cls: Seq<char>, min_word: int, min_alpha: int) -> bool {
    if cls == noun_class() {
        grapheme_count_of(surface) >= min_word
    } else if cls == unknown_class() {
        !all_space(surface) && grapheme_count_of(surface) >= min_alpha
    } else {
        false
    }
}

/// Whether something besides whitespace occurs in `s`.
fn has_non_space(s: &Vec<char>) -> (r: bool)
    ensures
        r == !all_space(s@),
{
    let mut i: usize = 0;
    while i < s.len()
        invariant
            i <= s@.len(),
            forall|k: int| 0 <= k < i ==> is_space_char(#[trigger] s@[k]),
        decreases s@.len() - i,
    {
        let c = s[i];
        if !(c == ' ' || c == '\t' || c == '\n' || c == '\u{b}' || c == '\u{c}' || c == '\r') {
            return true;
        }
        i = i + 1;
    }
    false
}

/// Decides the acceptance rule for one token.
pub fn accept_token(t: &Token, cfg: &Config) -> (r: bool)
    ensures
        r == spec_accepts(
            t.surface@,
            t.classification@,
            cfg.min_word_count as int,
            cfg.min_alphabet_word_count as int,
        ),
{
    let noun: Vec<char> = vec!['名', '詞'];
    let unknown: Vec<char> = vec!['U', 'N', 'K'];
    proof {
        assert(noun@ =~= noun_class());
        assert(unknown@ =~= unknown_class());
    }
    if chars_eq(&t.classification, &noun) {
        grapheme_count(&t.surface) >= cfg.min_word_count
    } else if chars_eq(&t.classification, &unknown) {
        has_non_space(&t.surface) && grapheme_count(&t.surface) >= cfg.min_alphabet_word_count
    } else {
        false
    }
}

/// Law: an out-of-vocabulary token consisting only of whitespace is
/// rejected, whatever the thresholds are.
pub proof fn lemma_whitespace_unknown_rejected(surface: Seq<char>, min_word: int, min_alpha: int)
    requires
        all_space(surface),
    ensures
        !spec_accepts(surface, unknown_class(), min_word, min_alpha),
{
    assert(unknown_class().len() == 3);
    assert(noun_class().len() == 2);
}

/// The surfaces of the accepted tokens, in token order.
pub open spec fn accepted_surfaces(toks: Seq<Token>, min_word: int, min_alpha: int) -> Seq<
    Seq<char>,
>
    decreases toks.len(),
{
    if toks.len() == 0 {
        Seq::empty()
    } else {
        let head = if spec_accepts(toks[0].surface@, toks[0].classification@, min_word, min_alpha) {
            seq![toks[0].surface@]
        } else {
            Seq::<Seq<char>>::empty()
        };
        head + accepted_surfaces(toks.skip(1), min_word, min_alpha)
    }
}

/// Keeps exactly the accepted tokens' surfaces, in order.
pub fn filter_tokens(toks: &Vec<Token>, cfg: &Config) -> (pool: Vec<Vec<char>>)
    ensures
        views_of(pool@) == accepted_surfaces(
            toks@,
            cfg.min_word_count as int,
            cfg.min_alphabet_word_count as int,
        ),
{
    let ghost mw = cfg.min_word_count as int;
    let ghost ma = cfg.min_alphabet_word_count as int;
    let mut pool: Vec<Vec<char>> = Vec::new();
    let mut i: usize = 0;
    proof {
        assert(views_of(pool@) =~= Seq::<Seq<char>>::empty());
        assert(toks@.skip(0) =~= toks@);
    }
    while i < toks.len()
        invariant
            i <= toks@.len(),
            mw == cfg.min_word_count as int,
            ma == cfg.min_alphabet_word_count as int,
            accepted_surfaces(toks@, mw, ma) == views_of(pool@) + accepted_surfaces(
                toks@.skip(i as int),
                mw,
                ma,
            ),
        decreases toks@.len() - i,
    {
        proof {
            assert(toks@.skip(i as int)[0] == toks@[i as int]);
            assert(toks@.skip(i as int).skip(1) =~= toks@.skip(i as int + 1));
        }
        if accept_token(&toks[i], cfg) {
            let surface = crate::text::copy_chars(&toks[i].surface);
            proof {
                assert(views_of(pool@.push(surface)) =~= views_of(pool@).push(
                    toks@[i as int].surface@,
                ));
                assert(views_of(pool@).push(toks@[i as int].surface@) + accepted_surfaces(
                    toks@.skip(i as int + 1),
                    mw,
                    ma,
                ) =~= views_of(pool@) + (seq![toks@[i as int].surface@] + accepted_surfaces(
                    toks@.skip(i as int + 1),
                    mw,
                    ma,
                )));
            }
            pool.push(surface);
        } else {
            proof {
                assert(views_of(pool@) + (Seq::<Seq<char>>::empty() + accepted_surfaces(
                    toks@.skip(i as int + 1),
                    mw,
                    ma,
                )) =~= views_of(pool@) + accepted_surfaces(toks@.skip(i as int + 1), mw, ma));
            }
        }
        i = i + 1;
    }
    proof {
        assert(toks@.skip(toks@.len() as int) =~= Seq::<Token>::empty());
        assert(views_of(pool@) + Seq::<Seq<char>>::empty() =~= views_of(pool@));
    }
    pool
}

/// Extraction fails only when the segmenter's dictionary cannot be loaded.
#[derive(Debug)]
pub enum ExtractError {
    TokenizerUnavailable,
}

/// What the dictionary segmenter makes of a text: its tokens in order,
/// each as the pair of its surface and its first detail field.
pub uninterp spec fn tokens_of(s: Seq<char>) -> Seq<(Seq<char>, Seq<char>)>;

/// Relies on lindera: a dictionary segmenter in normal (non-decompose)
/// mode over the embedded Japanese dictionary — a fixed byte slice
/// compiled into the binary — so on success the token list is a function
/// of the text alone. In a binary built without the embedded dictionary,
/// loading fails and the call reports itself unavailable.
#[verifier::external_body]
fn segment_chars(text: &Vec<char>) -> (r: Result<Vec<Token>, ExtractError>)
    ensures
        (r matches Ok(toks) ==> toks@.len() == tokens_of(text@).len() && (forall|i: int|
            0 <= i < toks@.len() ==> (#[trigger] toks@[i]).surface@ == tokens_of(text@)[i].0
                && toks@[i].classification@ == tokens_of(text@)[i].1)),
{
    let s: String = text.iter().collect();
    let dict = match lindera::dictionary::load_dictionary("embedded://ipadic") {
        Ok(d) => d,
        Err(_) => return Err(ExtractError::TokenizerUnavailable),
    };
    let seg = lindera::segmenter::Segmenter::new(lindera::mode::Mode::Normal, dict, None);
    match seg.segment(std::borrow::Cow::Owned(s)) {
        Err(_) => Err(ExtractError::TokenizerUnavailable),
        Ok(toks) => Ok(toks.into_iter().map(|mut t| Token {
            surface: t.surface.chars().collect(),
            classification: t.get_detail(0).unwrap_or("").chars().collect(),
        }).collect()),
    }
}

/// The acceptance rule applied to (surface, classification) pairs, as the
/// segmenter's output is named: the kept surfaces, in order.
pub open spec fn accepted_pairs(
    ts: Seq<(Seq<char>, Seq<char>)>,
    min_word: int,
    min_alpha: int,
) -> Seq<Seq<char>>
    decreases ts.len(),
{
    if ts.len() == 0 {
        Seq::empty()
    } else {
        let head = if spec_accepts(ts[0].0, ts[0].1, min_word, min_alpha) {
            seq![ts[0].0]
        } else {
            Seq::<Seq<char>>::empty()
        };
        head + accepted_pairs(ts.skip(1), min_word, min_alpha)
    }
}

/// On token lists that carry the same surfaces and classifications, the
/// two forms of the acceptance rule keep the same surfaces.
proof fn lemma_accepted_surfaces_match(
    toks: Seq<Token>,
    ts: Seq<(Seq<char>, Seq<char>)>,
    min_word: int,
    min_alpha: int,
)
    requires
        toks.len() == ts.len(),
        forall|i: int|
            0 <= i < toks.len() ==> (#[trigger] toks[i]).surface@ == ts[i].0
                && toks[i].classification@ == ts[i].1,
    ensures
        accepted_surfaces(toks, min_word, min_alpha) == accepted_pairs(ts, min_word, min_alpha),
    decreases toks.len(),
{
    if toks.len() > 0 {
        assert forall|i: int| 0 <= i < toks.skip(1).len() implies (#[trigger] toks.skip(
            1,
        )[i]).surface@ == ts.skip(1)[i].0 && toks.skip(1)[i].classification@ == ts.skip(
            1,
        )[i].1 by {
            assert(toks.skip(1)[i] == toks[i + 1]);
            assert(ts.skip(1)[i] == ts[i + 1]);
        }
        lemma_accepted_surfaces_match(toks.skip(1), ts.skip(1), min_word, min_alpha);
    }
}

/// What the whole extraction stage owes: the accepted surfaces of each
/// text's tokens, flattened across the texts in order.
pub open spec fn candidates_of(texts: Seq<Seq<char>>, min_word: int, min_alpha: int) -> Seq<
    Seq<char>,
>
    decreases texts.len(),
{
    if texts.len() == 0 {
        Seq::empty()
    } else {
        accepted_pairs(tokens_of(texts[0]), min_word, min_alpha) + candidates_of(
            texts.skip(1),
            min_word,
            min_alpha,
        )
    }
}

/// Segments every sampled text and pools the accepted surfaces across all
/// of them, in order. With nothing to segment the pool is owed and empty;
/// the stage fails only when the segmenter itself is unavailable.
pub fn extract_candidates(texts: &Vec<Vec<char>>, cfg: &Config) -> (r: Result<
    Vec<Vec<char>>,
    ExtractError,
>)
    ensures
        (texts@.len() == 0 ==> r is Ok),
        (r matches Ok(pool) ==> views_of(pool@) == candidates_of(
            views_of(texts@),
            cfg.min_word_count as int,
            cfg.min_alphabet_word_count as int,
        )),
{
    let ghost mw = cfg.min_word_count as int;
    let ghost ma = cfg.min_alphabet_word_count as int;
    let ghost tv = views_of(texts@);
    let mut pool: Vec<Vec<char>> = Vec::new();
    let mut i: usize = 0;
    proof {
        assert(views_of(pool@) =~= Seq::<Seq<char>>::empty());
        assert(tv.skip(0) =~= tv);
    }
    while i < texts.len()
        invariant
            i <= texts@.len(),
            mw == cfg.min_word_count as int,
            ma == cfg.min_alphabet_word_count as int,
            tv == views_of(texts@),
            candidates_of(tv, mw, ma) == views_of(pool@) + candidates_of(
                tv.skip(i as int),
                mw,
                ma,
            ),
        decreases texts@.len() - i,
    {
        let toks = match segment_chars(&texts[i]) {
            Ok(t) => t,
            Err(e) => {
                return Err(e);
            },
        };
        let accepted = filter_tokens(&toks, cfg);
        proof {
            assert(tv.skip(i as int)[0] == tv[i as int]);
            assert(tv.skip(i as int).skip(1) =~= tv.skip(i as int + 1));
            assert(tv[i as int] == texts@[i as int]@);
            lemma_accepted_surfaces_match(toks@, tokens_of(texts@[i as int]@), mw, ma);
            assert(views_of(accepted@) == accepted_pairs(tokens_of(tv[i as int]), mw, ma));
        }
        let ghost base = views_of(pool@);
        let mut j: usize = 0;
        proof {
            assert(base + views_of(accepted@).take(0) =~= base);
        }
        while j < accepted.len()
            invariant
                j <= accepted@.len(),
                views_of(pool@) == base + views_of(accepted@).take(j as int),
            decreases accepted@.len() - j,
        {
            let s = crate::text::copy_chars(&accepted[j]);
            proof {
                assert(views_of(accepted@)[j as int] == accepted@[j as int]@);
                assert(views_of(pool@.push(s)) =~= views_of(pool@).push(s@));
                assert((base + views_of(accepted@).take(j as int)).push(
                    views_of(accepted@)[j as int],
                ) =~= base + views_of(accepted@).take(j as int + 1));
            }
            pool.push(s);
            j = j + 1;
        }
        proof {
            assert(views_of(accepted@).take(accepted@.len() as int) =~= views_of(accepted@));
            assert((base + accepted_pairs(tokens_of(tv[i as int]), mw, ma)) + candidates_of(
                tv.skip(i as int + 1),
                mw,
                ma,
            ) =~= base + (accepted_pairs(tokens_of(tv[i as int]), mw, ma) + candidates_of(
                tv.skip(i as int + 1),
                mw,
                ma,
            )));
        }
        i = i + 1;
    }
    proof {
        assert(tv.skip(texts@.len() as int) =~= Seq::<Seq<char>>::empty());
        assert(views_of(pool@) + Seq::<Seq<char>>::empty() =~= views_of(pool@));
    }
    Ok(pool)
}

} // verus!
