//! The timeline sampler: reposts and off-target-language posts are
//! dropped, the survivors are normalized, and a bounded uniform subsample
//! caps how much text the tokenizer sees.

use vstd::prelude::*;
use crate::text::{normalize_spec, normalize_text, views_of};

verus! {

broadcast use vstd::seq_lib::group_seq_properties;

/// One fetched post, reduced to what the pipeline reads: its text, its
/// optional language tag, whether it is a repost, and its hashtag list.
pub struct Post {
    pub text: Vec<char>,
    pub language: Option<Vec<char>>,
    pub is_repost: bool,
    pub hashtags: Vec<Vec<char>>,
}

/// The language the pipeline works in.
pub open spec fn target_language() -> Seq<char> {
    seq!['j', 'a']
}

/// A post enters the pipeline only if it is not a repost and its language
/// tag, when present, names the target language.
pub open spec fn post_passes(p: Post) -> bool {
    &&& !p.is_repost
    &&& (p.language matches Some(l) ==> l@ == target_language())
}

/// The normalized texts of the passing posts, in timeline order.
pub open spec fn normalized_texts(posts: Seq<Post>) -> Seq<Seq<char>>
    decreases posts.len(),
{
    if posts.len() == 0 {
        Seq::empty()
    } else {
        let head = if post_passes(posts[0]) {
            seq![normalize_spec(posts[0].text@, views_of(posts[0].hashtags@))]
        } else {
            Seq::<Seq<char>>::empty()
        };
        head + normalized_texts(posts.skip(1))
    }
}

/// Whether a post enters the pipeline.
pub fn post_passes_exec(p: &Post) -> (r: bool)
    ensures
        r == post_passes(*p),
{
    if p.is_repost {
        return false;
    }
    match &p.language {
        None => true,
        Some(l) => {
            let ja: Vec<char> = vec!['j', 'a'];
            proof {
                assert(ja@ =~= target_language());
            }
            crate::text::chars_eq(l, &ja)
        },
    }
}

/// Drops reposts and off-target-language posts and normalizes the rest,
/// keeping timeline order.
pub fn filter_and_normalize(posts: &Vec<Post>) -> (r: Vec<Vec<char>>)
    ensures
        views_of(r@) == normalized_texts(posts@),
{
    let mut out: Vec<Vec<char>> = Vec::new();
    let mut i: usize = 0;
    proof {
        assert(views_of(out@) =~= Seq::<Seq<char>>::empty());
        assert(posts@.skip(0) =~= posts@);
    }
    while i < posts.len()
        invariant
            i <= posts@.len(),
            normalized_texts(posts@) == views_of(out@) + normalized_texts(posts@.skip(i as int)),
        decreases posts@.len() - i,
    {
        proof {
            assert(posts@.skip(i as int)[0] == posts@[i as int]);
            assert(posts@.skip(i as int).skip(1) =~= posts@.skip(i as int + 1));
        }
        if post_passes_exec(&posts[i]) {
            let n = normalize_text(&posts[i].text, &posts[i].hashtags);
            proof {
                assert(views_of(out@.push(n)) =~= views_of(out@).push(n@));
                assert(views_of(out@).push(n@) + normalized_texts(posts@.skip(i as int + 1))
                    =~= views_of(out@) + (seq![n@] + normalized_texts(posts@.skip(i as int + 1))));
            }
            out.push(n);
        } else {
            proof {
                assert(views_of(out@) + (Seq::<Seq<char>>::empty() + normalized_texts(
                    posts@.skip(i as int + 1),
                )) =~= views_of(out@) + normalized_texts(posts@.skip(i as int + 1)));
            }
        }
        i = i + 1;
    }
    proof {
        assert(posts@.skip(posts@.len() as int) =~= Seq::<Post>::empty());
        assert(views_of(out@) + Seq::<Seq<char>>::empty() =~= views_of(out@));
    }
    out
}

/// The sample `r` is `src` read at pairwise-distinct positions `idxs`:
/// a draw without replacement, one source position per drawn text.
pub open spec fn picked_without_replacement(
    r: Seq<Seq<char>>,
    src: Seq<Seq<char>>,
    idxs: Seq<int>,
) -> bool {
    &&& idxs.len() == r.len()
    &&& (forall|i: int| 0 <= i < idxs.len() ==> 0 <= #[trigger] idxs[i] < src.len())
    &&& (forall|i: int, j: int|
        0 <= i < idxs.len() && 0 <= j < idxs.len() && i != j ==> idxs[i] != idxs[j])
    &&& (forall|i: int| 0 <= i < r.len() ==> #[trigger] r[i] == src[idxs[i]])
}

/// A uniform random subsample without replacement of `min(k, |texts|)` of
/// the texts: each drawn text comes from its own input position.
pub fn sample_texts(texts: &Vec<Vec<char>>, k: usize, rng: &mut rand::rngs::ThreadRng) -> (r: Vec<
    Vec<char>,
>)
    ensures
        r@.len() == vstd::math::min(k as int, texts@.len() as int),
        forall|i: int| 0 <= i < r@.len() ==> views_of(texts@).contains(#[trigger] r@[i]@),
        exists|idxs: Seq<int>| picked_without_replacement(views_of(r@), views_of(texts@), idxs),
{
    let idxs = crate::rng::sample_indices(texts.len(), k, rng);
    let mut r: Vec<Vec<char>> = Vec::new();
    let mut i: usize = 0;
    while i < idxs.len()
        invariant
            i <= idxs@.len(),
            r@.len() == i,
            forall|j: int| 0 <= j < idxs@.len() ==> (#[trigger] idxs@[j]) < texts@.len(),
            forall|j1: int, j2: int|
                0 <= j1 < idxs@.len() && 0 <= j2 < idxs@.len() && j1 != j2 ==> idxs@[j1]
                    != idxs@[j2],
            forall|j: int| 0 <= j < i ==> (#[trigger] r@[j]@) == texts@[idxs@[j] as int]@,
            forall|j: int| 0 <= j < i ==> views_of(texts@).contains(#[trigger] r@[j]@),
        decreases idxs@.len() - i,
    {
        let t = crate::text::copy_chars(&texts[idxs[i]]);
        proof {
            assert(t@ == texts@[idxs@[i as int] as int]@);
            assert(views_of(texts@)[idxs@[i as int] as int] == t@);
            assert(views_of(texts@).contains(t@));
        }
        r.push(t);
        i = i + 1;
    }
    proof {
        let w = idxs@.map_values(|u: usize| u as int);
        assert forall|j: int| 0 <= j < views_of(r@).len() implies #[trigger] views_of(r@)[j]
            == views_of(texts@)[w[j]] by {
            assert(r@[j]@ == texts@[idxs@[j] as int]@);
        }
        assert(picked_without_replacement(views_of(r@), views_of(texts@), w));
    }
    r
}

/// The full sampling stage: filter, normalize, then subsample at most
/// `sample_count` texts.
pub fn sample_timeline(
    posts: &Vec<Post>,
    sample_count: usize,
    rng: &mut rand::rngs::ThreadRng,
) -> (r: Vec<Vec<char>>)
    ensures
        r@.len() == vstd::math::min(sample_count as int, normalized_texts(posts@).len() as int),
        forall|i: int| 0 <= i < r@.len() ==> normalized_texts(posts@).contains(#[trigger] r@[i]@),
        exists|idxs: Seq<int>| picked_without_replacement(views_of(r@), normalized_texts(posts@), idxs),
{
    let filtered = filter_and_normalize(posts);
    proof {
        assert(views_of(filtered@).len() == filtered@.len());
    }
    let r = sample_texts(&filtered, sample_count, rng);
    proof {
        let w = choose|idxs: Seq<int>|
            picked_without_replacement(views_of(r@), views_of(filtered@), idxs);
        assert(picked_without_replacement(views_of(r@), normalized_texts(posts@), w));
    }
    r
}

} // verus!
