//! The candidate selector: one uniform random draw from the pooled words.

use vstd::prelude::*;

verus! {

/// Selection fails exactly on an empty pool; that is fatal and never
/// retried, since the pool is fixed for the run's sampled data.
#[derive(Debug)]
pub enum SelectError {
    EmptyPool,
}

/// Picks one candidate uniformly from the pool. Fails if and only if the
/// pool is empty; a singleton pool always yields its one element.
pub fn select_candidate(pool: &Vec<Vec<char>>, rng: &mut rand::rngs::ThreadRng) -> (r: Result<
    Vec<char>,
    SelectError,
>)
    ensures
        (r is Err) <==> pool@.len() == 0,
        (r matches Ok(c) ==> exists|i: int| 0 <= i < pool@.len() && c@ == #[trigger] pool@[i]@),
        (r matches Ok(c) ==> (pool@.len() == 1 ==> c@ == pool@[0]@)),
{
    match crate::rng::choose_index(pool.len(), rng) {
        None => Err(SelectError::EmptyPool),
        Some(i) => {
            let c = crate::text::copy_chars(&pool[i]);
            proof {
                assert(c@ == pool@[i as int]@);
            }
            Ok(c)
        },
    }
}

} // verus!
