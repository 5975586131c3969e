use otobot::config::Config;
use otobot::graph::{follow_disposition, recommend_follows, FollowOutcome, FollowStep};
use otobot::publish::{Directive, Publisher, PublishStatus};
use otobot::rng::new_rng;
use otobot::sampler::{filter_and_normalize, post_passes_exec, sample_texts, sample_timeline, Post};
use otobot::tokens::{filter_tokens, Token};

fn cv(s: &str) -> Vec<char> {
    s.chars().collect()
}

fn s(v: &Vec<char>) -> String {
    v.iter().collect()
}

fn post(text: &str, lang: Option<&str>, repost: bool, tags: &[&str]) -> Post {
    Post {
        text: cv(text),
        language: lang.map(cv),
        is_repost: repost,
        hashtags: tags.iter().map(|t| cv(t)).collect(),
    }
}

#[test]
fn reposts_and_foreign_posts_are_dropped() {
    assert!(!post_passes_exec(&post("x", None, true, &[])));
    assert!(!post_passes_exec(&post("x", Some("en"), false, &[])));
    assert!(post_passes_exec(&post("x", Some("ja"), false, &[])));
    assert!(post_passes_exec(&post("x", None, false, &[])));
}

#[test]
fn filtering_normalizes_the_survivors() {
    let posts = vec![
        post("rt こういうの", Some("ja"), true, &[]),
        post("hello", Some("en"), false, &[]),
        post("見て https://t.co/x #mad 余波だ", Some("ja"), false, &["mad"]),
    ];
    let texts = filter_and_normalize(&posts);
    assert_eq!(texts.len(), 1);
    assert_eq!(s(&texts[0]), "見て   余波だ");
}

#[test]
fn subsample_is_bounded_and_from_the_input() {
    let texts: Vec<Vec<char>> = (0..5).map(|i| cv(&format!("text{}", i))).collect();
    let mut rng = new_rng();
    let some = sample_texts(&texts, 3, &mut rng);
    assert_eq!(some.len(), 3);
    for t in &some {
        assert!(texts.iter().any(|u| *u == *t));
    }
    let all = sample_texts(&texts, 10, &mut rng);
    assert_eq!(all.len(), 5);
}

#[test]
fn timeline_sampling_composes_filter_and_subsample() {
    let posts = vec![
        post("a http://x.y/z", None, false, &[]),
        post("b", Some("ja"), false, &[]),
        post("c", Some("en"), false, &[]),
        post("d", None, true, &[]),
    ];
    let mut rng = new_rng();
    let texts = sample_timeline(&posts, 100, &mut rng);
    assert_eq!(texts.len(), 2);
    let texts1 = sample_timeline(&posts, 1, &mut rng);
    assert_eq!(texts1.len(), 1);
}

#[test]
fn end_to_end_follow_and_publish() {
    // Follow phase: followers {1,2,3}, following {2}, two primary slots;
    // only two candidates exist, so both 1 and 3 are followed.
    let mut rng = new_rng();
    let plan = recommend_follows(&vec![2], &vec![1, 2, 3], &vec![], 2, 0, &mut rng);
    let mut followed = plan.primary.clone();
    followed.sort();
    assert_eq!(followed, vec![1, 3]);
    for _ in &followed {
        assert!(matches!(
            follow_disposition(&FollowOutcome::Followed),
            FollowStep::KeepGoing
        ));
    }

    // Content phase: one repost, one foreign post, one valid post whose
    // normalized text carries a two-grapheme noun.
    let posts = vec![
        post("rt 何か", Some("ja"), true, &[]),
        post("hi there", Some("en"), false, &[]),
        post("見て https://t.co/q #mad 余波だ", Some("ja"), false, &["mad"]),
    ];
    let texts = sample_timeline(&posts, 100, &mut rng);
    assert_eq!(texts.len(), 1);

    // The dictionary segmenter's output for that text, classified as the
    // dictionary would: the pool keeps the two-grapheme noun.
    let toks = vec![
        Token { surface: cv("見"), classification: cv("動詞") },
        Token { surface: cv("て"), classification: cv("助詞") },
        Token { surface: cv("余波"), classification: cv("名詞") },
        Token { surface: cv("だ"), classification: cv("助動詞") },
    ];
    let cfg = Config::default();
    let pool = filter_tokens(&toks, &cfg);
    assert_eq!(pool.len(), 1);
    assert_eq!(s(&pool[0]), "余波");

    // Publish phase: the one candidate is composed and submitted once.
    let mut publisher = Publisher::new(cfg.allows_retry_count, false);
    match publisher.next_directive(&pool, &mut rng).unwrap() {
        Directive::Submit(m) => {
            assert_eq!(s(&m), "音余波");
            publisher.record_outcome(true);
        }
        Directive::Done(_) => panic!("must submit"),
    }
    assert!(matches!(publisher.status, PublishStatus::Succeeded));
}
