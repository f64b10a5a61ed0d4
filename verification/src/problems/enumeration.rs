use vstd::prelude::*;
use crate::problems::cost_matrix::nested;

verus! {

/// The `k`-element subsets of the indices `0..n`, in the order in which
/// `itertools` produces the combinations of that range.
pub uninterp spec fn combinations_of(n: nat, k: nat) -> Seq<Seq<usize>>;

/// The `k`-tuples over the indices `0..m`, repetition allowed, in the order in
/// which `itertools` produces the cartesian product of `k` copies of that
/// range.
pub uninterp spec fn tuples_of(m: nat, k: nat) -> Seq<Seq<usize>>;

/// Every entry of every row is under `bound`.
pub open spec fn entries_below(rows: Seq<Seq<usize>>, bound: nat) -> bool {
    forall|r: int, p: int|
        0 <= r < rows.len() && 0 <= p < rows[r].len() ==> (#[trigger] rows[r][p]) < bound
}

/// `itertools::Itertools::combinations` on the range `0..n`, collected.
/// Trusted: the outcome is a function of `n` and `k` alone, and each
/// combination is made of elements of the range, so of indices under `n`. The
/// adaptor keeps `k` indices and the elements it has read; `requires` keeps
/// `k` within the range's length.
#[verifier::external_body]
pub(crate) fn index_combinations(n: usize, k: usize) -> (subsets: Vec<Vec<usize>>)
    requires
        k <= n,
    ensures
        nested(subsets@) == combinations_of(n as nat, k as nat),
        entries_below(nested(subsets@), n as nat),
{
    itertools::Itertools::combinations(0..n, k).collect()
}

/// `itertools::Itertools::multi_cartesian_product` on `k` copies of the range
/// `0..m`, collected. Trusted: the outcome is a function of `m` and `k` alone,
/// and each tuple is made of elements of the range, so of indices under `m`.
/// The adaptor keeps `k` sub-iterators; `requires` bounds what it allocates
/// for them.
#[verifier::external_body]
pub(crate) fn index_tuples(m: usize, k: usize) -> (tuples: Vec<Vec<usize>>)
    requires
        k <= usize::MAX / 64,
    ensures
        nested(tuples@) == tuples_of(m as nat, k as nat),
        entries_below(nested(tuples@), m as nat),
{
    itertools::Itertools::multi_cartesian_product(std::iter::repeat(0..m).take(k)).collect()
}

} // verus!
