//! The follow-graph differ: from the account's own following and follower
//! sets and a reference account's following set, recommend accounts to
//! follow by sampling the set differences.

use vstd::prelude::*;

verus! {

broadcast use vstd::seq_lib::group_seq_properties;

/// An account-id sequence used as a set: no id occurs twice.
pub open spec fn id_set(s: Seq<u64>) -> bool {
    s.no_duplicates()
}

/// True when the outcome of one follow call lets the run go on: success or
/// the recoverable "relationship already exists" answer. Any other failure
/// aborts the run.
#[derive(Debug)]
pub enum FollowOutcome {
    Followed,
    AlreadyFollowing,
    Failed,
}

/// What the run does after one follow call.
#[derive(Debug)]
pub enum FollowStep {
    KeepGoing,
    Abort,
}

/// A recoverable "already following" answer is skipped; only a genuine
/// failure aborts.
pub fn follow_disposition(outcome: &FollowOutcome) -> (step: FollowStep)
    ensures
        (step is Abort) <==> (outcome is Failed),
{
    match outcome {
        FollowOutcome::Failed => FollowStep::Abort,
        _ => FollowStep::KeepGoing,
    }
}

/// Keeps every id occurring in `v` once, so the result is an id set with
/// the same members.
pub fn dedup_ids(v: &Vec<u64>) -> (r: Vec<u64>)
    ensures
        id_set(r@),
        forall|x: u64| r@.contains(x) <==> v@.contains(x),
{
    let mut r: Vec<u64> = Vec::new();
    let mut i: usize = 0;
    while i < v.len()
        invariant
            i <= v@.len(),
            id_set(r@),
            forall|x: u64| r@.contains(x) <==> v@.take(i as int).contains(x),
        decreases v@.len() - i,
    {
        proof {
            assert(v@.take(i as int + 1) =~= v@.take(i as int).push(v@[i as int]));
        }
        if !contains_id(&r, v[i]) {
            r.push(v[i]);
        }
        i = i + 1;
    }
    proof {
        assert(v@.take(v@.len() as int) =~= v@);
    }
    r
}

/// Linear membership test.
pub fn contains_id(v: &Vec<u64>, x: u64) -> (r: bool)
    ensures
        r == v@.contains(x),
{
    let mut i: usize = 0;
    while i < v.len()
        invariant
            i <= v@.len(),
            forall|j: int| 0 <= j < i ==> v@[j] != x,
        decreases v@.len() - i,
    {
        if v[i] == x {
            return true;
        }
        i = i + 1;
    }
    false
}

/// The ids of `a` that are not in `b`, in the order of `a`.
pub fn difference(a: &Vec<u64>, b: &Vec<u64>) -> (r: Vec<u64>)
    requires
        id_set(a@),
    ensures
        id_set(r@),
        forall|x: u64| r@.contains(x) <==> (a@.contains(x) && !b@.contains(x)),
        forall|i: int| 0 <= i < r@.len() ==> a@.contains(#[trigger] r@[i]) && !b@.contains(r@[i]),
{
    let mut r: Vec<u64> = Vec::new();
    let mut i: usize = 0;
    while i < a.len()
        invariant
            i <= a@.len(),
            id_set(a@),
            id_set(r@),
            forall|x: u64| r@.contains(x) <==> (a@.take(i as int).contains(x) && !b@.contains(x)),
            forall|j: int| 0 <= j < r@.len() ==> a@.contains(#[trigger] r@[j]) && !b@.contains(r@[j]),
        decreases a@.len() - i,
    {
        proof {
            assert(a@.take(i as int + 1) =~= a@.take(i as int).push(a@[i as int]));
        }
        if !contains_id(b, a[i]) {
            proof {
                assert forall|j: int| 0 <= j < r@.len() implies #[trigger] r@[j] != a@[i as int] by {
                    let x = r@[j];
                    assert(r@.contains(x));
                    assert(a@.take(i as int).contains(x));
                    let k = choose|k: int| 0 <= k < i && a@[k] == x;
                    assert(a@[k] == x && k < i as int);
                }
            }
            r.push(a[i]);
        }
        i = i + 1;
    }
    proof {
        assert(a@.take(a@.len() as int) =~= a@);
    }
    r
}

/// Copies out `v[idxs[0]], v[idxs[1]], ...`.
fn gather_ids(v: &Vec<u64>, idxs: &Vec<usize>) -> (r: Vec<u64>)
    requires
        forall|i: int| 0 <= i < idxs@.len() ==> (#[trigger] idxs@[i]) < v@.len(),
    ensures
        r@.len() == idxs@.len(),
        forall|i: int| 0 <= i < idxs@.len() ==> r@[i] == v@[#[trigger] idxs@[i] as int],
{
    let mut r: Vec<u64> = Vec::new();
    let mut i: usize = 0;
    while i < idxs.len()
        invariant
            i <= idxs@.len(),
            r@.len() == i,
            forall|j: int| 0 <= j < idxs@.len() ==> (#[trigger] idxs@[j]) < v@.len(),
            forall|j: int| 0 <= j < i ==> r@[j] == v@[#[trigger] idxs@[j] as int],
        decreases idxs@.len() - i,
    {
        r.push(v[idxs[i]]);
        i = i + 1;
    }
    r
}

/// Uniform random subset without replacement: `min(k, |pool|)` ids drawn
/// from `pool`.
pub fn sample_ids(pool: &Vec<u64>, k: usize, rng: &mut rand::rngs::ThreadRng) -> (r: Vec<u64>)
    requires
        id_set(pool@),
    ensures
        r@.len() == vstd::math::min(k as int, pool@.len() as int),
        forall|i: int| 0 <= i < r@.len() ==> pool@.contains(#[trigger] r@[i]),
        id_set(r@),
{
    let idxs = crate::rng::sample_indices(pool.len(), k, rng);
    let r = gather_ids(pool, &idxs);
    proof {
        assert forall|i: int| 0 <= i < r@.len() implies pool@.contains(#[trigger] r@[i]) by {
            assert(r@[i] == pool@[idxs@[i] as int]);
        }
        assert forall|i: int, j: int|
            0 <= i < r@.len() && 0 <= j < r@.len() && i != j implies r@[i] != r@[j] by {
            assert(idxs@[i] != idxs@[j]);
            assert(r@[i] == pool@[idxs@[i] as int]);
            assert(r@[j] == pool@[idxs@[j] as int]);
        }
    }
    r
}

/// A run's follow recommendations: `primary` drawn from the account's
/// followers it does not follow back, `secondary` drawn from what the
/// reference account follows and this account does not.
pub struct FollowPlan {
    pub primary: Vec<u64>,
    pub secondary: Vec<u64>,
}

/// Recommends accounts to follow this run.
///
/// `primary` is a uniform random subset, without replacement, of size
/// `min(primary_count, |self_followers \ self_following|)` of that
/// difference; `secondary` likewise with `reference_following` in place of
/// `self_followers` and `secondary_count` in place of `primary_count`.
/// No recommended id is already followed.
pub fn recommend_follows(
    self_following: &Vec<u64>,
    self_followers: &Vec<u64>,
    reference_following: &Vec<u64>,
    primary_count: usize,
    secondary_count: usize,
    rng: &mut rand::rngs::ThreadRng,
) -> (plan: FollowPlan)
    requires
        id_set(self_followers@),
        id_set(reference_following@),
    ensures
        plan.primary@.len() == vstd::math::min(
            primary_count as int,
            (self_followers@.to_set() - self_following@.to_set()).len() as int,
        ),
        forall|i: int| 0 <= i < plan.primary@.len()
            ==> self_followers@.contains(#[trigger] plan.primary@[i])
                && !self_following@.contains(plan.primary@[i]),
        id_set(plan.primary@),
        plan.secondary@.len() == vstd::math::min(
            secondary_count as int,
            (reference_following@.to_set() - self_following@.to_set()).len() as int,
        ),
        forall|i: int| 0 <= i < plan.secondary@.len()
            ==> reference_following@.contains(#[trigger] plan.secondary@[i])
                && !self_following@.contains(plan.secondary@[i]),
        id_set(plan.secondary@),
{
    let d1 = difference(self_followers, self_following);
    let d2 = difference(reference_following, self_following);
    proof {
        lemma_difference_cardinality(d1@, self_followers@, self_following@);
        lemma_difference_cardinality(d2@, reference_following@, self_following@);
    }
    let primary = sample_ids(&d1, primary_count, rng);
    let secondary = sample_ids(&d2, secondary_count, rng);
    FollowPlan { primary, secondary }
}

/// A duplicate-free sequence holding exactly the members of `a` that are
/// not in `b` is as long as the set difference is large.
proof fn lemma_difference_cardinality(d: Seq<u64>, a: Seq<u64>, b: Seq<u64>)
    requires
        d.no_duplicates(),
        forall|x: u64| d.contains(x) <==> (a.contains(x) && !b.contains(x)),
    ensures
        d.len() == (a.to_set() - b.to_set()).len(),
        d.to_set() == a.to_set() - b.to_set(),
{
    broadcast use vstd::set::group_set_axioms;

    assert(d.to_set() =~= a.to_set() - b.to_set());
    d.unique_seq_to_set();
}

/// Both halves of a plan, primary first, as one list of follow targets.
pub fn combined_targets(plan: &FollowPlan) -> (r: Vec<u64>)
    ensures
        r@ == plan.primary@ + plan.secondary@,
{
    let mut r: Vec<u64> = Vec::new();
    let mut i: usize = 0;
    while i < plan.primary.len()
        invariant
            i <= plan.primary@.len(),
            r@ == plan.primary@.take(i as int),
        decreases plan.primary@.len() - i,
    {
        r.push(plan.primary[i]);
        proof {
            assert(plan.primary@.take(i as int + 1) =~= plan.primary@.take(i as int).push(
                plan.primary@[i as int],
            ));
        }
        i = i + 1;
    }
    proof {
        assert(plan.primary@.take(plan.primary@.len() as int) =~= plan.primary@);
    }
    let mut j: usize = 0;
    while j < plan.secondary.len()
        invariant
            j <= plan.secondary@.len(),
            r@ == plan.primary@ + plan.secondary@.take(j as int),
        decreases plan.secondary@.len() - j,
    {
        r.push(plan.secondary[j]);
        proof {
            assert(plan.secondary@.take(j as int + 1) =~= plan.secondary@.take(j as int).push(
                plan.secondary@[j as int],
            ));
            assert((plan.primary@ + plan.secondary@.take(j as int)).push(
                plan.secondary@[j as int],
            ) =~= plan.primary@ + plan.secondary@.take(j as int + 1));
        }
        j = j + 1;
    }
    proof {
        assert(plan.secondary@.take(plan.secondary@.len() as int) =~= plan.secondary@);
    }
    r
}

} // verus!
