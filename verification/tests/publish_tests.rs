use otobot::publish::{compose_message, Directive, Publisher, PublishStatus};
use otobot::rng::new_rng;
use otobot::select::{select_candidate, SelectError};

fn cv(s: &str) -> Vec<char> {
    s.chars().collect()
}

fn s(v: &Vec<char>) -> String {
    v.iter().collect()
}

#[test]
fn empty_pool_is_an_error() {
    let mut rng = new_rng();
    assert!(matches!(select_candidate(&vec![], &mut rng), Err(SelectError::EmptyPool)));
}

#[test]
fn singleton_pool_always_yields_its_element() {
    let mut rng = new_rng();
    for _ in 0..20 {
        let c = select_candidate(&vec![cv("のは")], &mut rng).unwrap();
        assert_eq!(s(&c), "のは");
    }
}

#[test]
fn selection_comes_from_the_pool() {
    let pool = vec![cv("ことば"), cv("おと"), cv("なみ")];
    let mut rng = new_rng();
    for _ in 0..20 {
        let c = select_candidate(&pool, &mut rng).unwrap();
        assert!(pool.iter().any(|w| *w == c));
    }
}

#[test]
fn message_is_marker_plus_word() {
    assert_eq!(s(&compose_message(&cv("ことば"))), "音ことば");
    assert_eq!(s(&compose_message(&cv(""))), "音");
}

#[test]
fn dry_run_never_submits_and_reports_success() {
    let mut p = Publisher::new(3, true);
    let mut rng = new_rng();
    let d = p.next_directive(&vec![cv("のは")], &mut rng).unwrap();
    match d {
        Directive::Done(m) => assert_eq!(s(&m), "音のは"),
        Directive::Submit(_) => panic!("a dry run never submits"),
    }
    assert!(matches!(p.status, PublishStatus::Succeeded));
    assert_eq!(p.attempts, 0);
}

#[test]
fn dry_run_still_needs_a_candidate() {
    let mut p = Publisher::new(3, true);
    let mut rng = new_rng();
    assert!(matches!(p.next_directive(&vec![], &mut rng), Err(SelectError::EmptyPool)));
    assert!(matches!(p.status, PublishStatus::Pending));
}

#[test]
fn all_failures_take_exactly_max_retries_plus_one_attempts() {
    let mut p = Publisher::new(3, false);
    let pool = vec![cv("のは")];
    let mut rng = new_rng();
    let mut submissions = 0;
    loop {
        match p.next_directive(&pool, &mut rng).unwrap() {
            Directive::Submit(m) => {
                assert_eq!(m[0], '音');
                submissions += 1;
                p.record_outcome(false);
            }
            Directive::Done(_) => panic!("a failing run never finishes on its own"),
        }
        match p.status {
            PublishStatus::Failed => break,
            PublishStatus::Pending => assert!(submissions <= 3),
            PublishStatus::Succeeded => panic!("no submission succeeded"),
        }
    }
    assert_eq!(submissions, 4);
    assert_eq!(p.attempts, 4);
}

#[test]
fn zero_retry_budget_means_one_attempt() {
    let mut p = Publisher::new(0, false);
    let pool = vec![cv("おと")];
    let mut rng = new_rng();
    match p.next_directive(&pool, &mut rng).unwrap() {
        Directive::Submit(_) => p.record_outcome(false),
        Directive::Done(_) => panic!("must submit once"),
    }
    assert!(matches!(p.status, PublishStatus::Failed));
    assert_eq!(p.attempts, 1);
}

#[test]
fn first_success_terminates_the_loop() {
    let mut p = Publisher::new(3, false);
    let pool = vec![cv("おと")];
    let mut rng = new_rng();
    match p.next_directive(&pool, &mut rng).unwrap() {
        Directive::Submit(m) => {
            assert_eq!(s(&m), "音おと");
            p.record_outcome(true);
        }
        Directive::Done(_) => panic!("must submit"),
    }
    assert!(matches!(p.status, PublishStatus::Succeeded));
    assert_eq!(p.attempts, 1);
}
