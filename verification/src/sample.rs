//! Drawing a sample of distinct words, uniformly at random without
//! replacement.

use crate::config::Config;
use vstd::prelude::*;

verus! {

/// Why a sample could not be drawn.
#[derive(Clone, Copy, Debug, PartialEq, Eq, Structural)]
pub enum SampleError {
    /// More words were requested than the candidate pool holds.
    InsufficientCandidates,
}

/// `idx` witnesses that `sample` was drawn from `pool` without replacement:
/// one in-range index per drawn word, no index twice, and each drawn word is
/// the pool's word at its index.
pub open spec fn sample_indices_ok(
    idx: Seq<int>,
    sample: Seq<Seq<char>>,
    pool: Seq<Seq<char>>,
) -> bool {
    &&& idx.len() == sample.len()
    &&& forall|k: int| 0 <= k < idx.len() ==> 0 <= #[trigger] idx[k] < pool.len()
    &&& forall|k: int, l: int| 0 <= k < l < idx.len() ==> idx[k] != idx[l]
    &&& forall|k: int| 0 <= k < idx.len() ==> #[trigger] sample[k] == pool[idx[k]]
}

/// `sample` consists of distinct draws from `pool`: some sequence of distinct
/// in-range indices maps `pool` onto it.
pub open spec fn is_sample_of(sample: Seq<Seq<char>>, pool: Seq<Seq<char>>) -> bool {
    exists|idx: Seq<int>| sample_indices_ok(idx, sample, pool)
}

/// Relies on `rand::seq::index::sample`: it returns exactly `amount` distinct
/// indices drawn from `0..length`, in random order, and panics when
/// `amount > length`. Nothing more is promised of a random result.
#[verifier::external_body]
fn sample_indices(length: usize, amount: usize) -> (r: Vec<usize>)
    requires
        amount <= length,
    ensures
        r@.len() == amount,
        forall|k: int| 0 <= k < r@.len() ==> #[trigger] r@[k] < length,
        forall|k: int, l: int| 0 <= k < l < r@.len() ==> r@[k] != r@[l],
{
    let mut rng = rand::rng();
    rand::seq::index::sample(&mut rng, length, amount).into_vec()
}

/// Draws `cfg.number` distinct words from `words`, uniformly at random
/// without replacement, in randomized order. Succeeds exactly when the pool
/// holds at least `cfg.number` words; otherwise nothing is drawn and the
/// error says so.
pub fn select_words(words: &Vec<String>, cfg: &Config) -> (r: Result<
    Vec<String>,
    SampleError,
>)
    ensures
        r is Ok <==> cfg.number <= words@.len(),
        r is Err ==> r == Err::<Vec<String>, SampleError>(SampleError::InsufficientCandidates),
        r matches Ok(s) ==> s@.len() == cfg.number && is_sample_of(
            s.deep_view(),
            words.deep_view(),
        ),
{
    if cfg.number > words.len() {
        return Err(SampleError::InsufficientCandidates);
    }
    let idx = sample_indices(words.len(), cfg.number);
    let mut out: Vec<String> = Vec::new();
    let mut k: usize = 0;
    while k < idx.len()
        invariant
            idx@.len() == cfg.number,
            forall|a: int| 0 <= a < idx@.len() ==> #[trigger] idx@[a] < words@.len(),
            forall|a: int, b: int| 0 <= a < b < idx@.len() ==> idx@[a] != idx@[b],
            k <= idx@.len(),
            out@.len() == k,
            forall|a: int| 0 <= a < k ==> (#[trigger] out@[a])@ == words@[idx@[a] as int]@,
        decreases idx@.len() - k,
    {
        let ghost prev = out@;
        let i = idx[k];
        out.push(words[i].clone());
        proof {
            assert(out@[k as int]@ == words@[i as int]@);
            assert(forall|a: int| 0 <= a < k ==> #[trigger] out@[a] == prev[a]);
        }
        k = k + 1;
    }
    proof {
        let gi = Seq::new(idx@.len(), |j: int| idx@[j] as int);
        assert(forall|a: int|
            0 <= a < out@.len() ==> #[trigger] out.deep_view()[a] == out@[a]@);
        assert(forall|a: int|
            0 <= a < words@.len() ==> #[trigger] words.deep_view()[a] == words@[a]@);
        assert(sample_indices_ok(gi, out.deep_view(), words.deep_view()));
    }
    Ok(out)
}

} // verus!
