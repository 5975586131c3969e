use otobot::graph::{
    combined_targets, contains_id, dedup_ids, difference, follow_disposition, recommend_follows,
    sample_ids, FollowOutcome, FollowPlan, FollowStep,
};
use otobot::rng::new_rng;

fn sorted(mut v: Vec<u64>) -> Vec<u64> {
    v.sort();
    v
}

#[test]
fn difference_excludes_second_set() {
    let d = difference(&vec![1, 2, 3], &vec![2]);
    assert_eq!(sorted(d), vec![1, 3]);
}

#[test]
fn difference_of_disjoint_sets_keeps_all() {
    let d = difference(&vec![4, 5], &vec![1, 2, 3]);
    assert_eq!(sorted(d), vec![4, 5]);
}

#[test]
fn contains_id_works() {
    assert!(contains_id(&vec![7, 9], 9));
    assert!(!contains_id(&vec![7, 9], 8));
    assert!(!contains_id(&vec![], 1));
}

#[test]
fn dedup_keeps_one_of_each() {
    let d = dedup_ids(&vec![5, 5, 7, 5]);
    assert_eq!(sorted(d), vec![5, 7]);
}

#[test]
fn recommended_ids_never_already_followed() {
    let following = vec![2, 4];
    let followers = vec![1, 2, 3, 4];
    let reference = vec![4, 5];
    let mut rng = new_rng();
    let plan = recommend_follows(&following, &followers, &reference, 10, 10, &mut rng);
    for id in plan.primary.iter().chain(plan.secondary.iter()) {
        assert!(!following.contains(id));
    }
    assert_eq!(sorted(plan.primary.clone()), vec![1, 3]);
    assert_eq!(plan.secondary, vec![5]);
}

#[test]
fn primary_size_is_min_of_count_and_difference() {
    let following = vec![2];
    let followers = vec![1, 2, 3];
    let mut rng = new_rng();
    let plan = recommend_follows(&following, &followers, &vec![], 1, 0, &mut rng);
    assert_eq!(plan.primary.len(), 1);
    assert!(plan.primary[0] == 1 || plan.primary[0] == 3);
    let plan2 = recommend_follows(&following, &followers, &vec![], 5, 0, &mut rng);
    assert_eq!(plan2.primary.len(), 2);
    assert_eq!(sorted(plan2.primary.clone()), vec![1, 3]);
    // no duplicates within primary
    let mut seen = plan2.primary.clone();
    seen.sort();
    seen.dedup();
    assert_eq!(seen.len(), 2);
}

#[test]
fn sample_without_replacement() {
    let pool: Vec<u64> = (0..10).collect();
    let mut rng = new_rng();
    let s = sample_ids(&pool, 4, &mut rng);
    assert_eq!(s.len(), 4);
    let mut t = s.clone();
    t.sort();
    t.dedup();
    assert_eq!(t.len(), 4);
    for id in &s {
        assert!(pool.contains(id));
    }
    let all = sample_ids(&pool, 100, &mut rng);
    assert_eq!(all.len(), 10);
}

#[test]
fn follow_disposition_skips_known_relationship() {
    assert!(matches!(follow_disposition(&FollowOutcome::Followed), FollowStep::KeepGoing));
    assert!(matches!(
        follow_disposition(&FollowOutcome::AlreadyFollowing),
        FollowStep::KeepGoing
    ));
    assert!(matches!(follow_disposition(&FollowOutcome::Failed), FollowStep::Abort));
}

#[test]
fn combined_targets_orders_primary_first() {
    let plan = FollowPlan { primary: vec![1, 3], secondary: vec![5] };
    assert_eq!(combined_targets(&plan), vec![1, 3, 5]);
}
