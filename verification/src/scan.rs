//! Scanning a sequence for the first item of some kind.

use vstd::prelude::*;

verus! {

/// The number of leading items of `s` that are no separator: the index of
/// the first separator, or the length of `s` where it holds none.
pub open spec fn run_length<T>(s: Seq<T>, sep: spec_fn(T) -> bool) -> int
    decreases s.len(),
{
    if s.len() == 0 || sep(s[0]) {
        0
    } else {
        1 + run_length(s.skip(1), sep)
    }
}

/// `run_length` is the one index before which nothing is a separator and at
/// which the sequence ends or holds a separator.
pub proof fn lemma_run_length<T>(s: Seq<T>, sep: spec_fn(T) -> bool, k: int)
    requires
        0 <= k <= s.len(),
        forall|j: int| 0 <= j < k ==> !sep(#[trigger] s[j]),
        k == s.len() || sep(s[k]),
    ensures
        run_length(s, sep) == k,
    decreases k,
{
    if k > 0 {
        let t = s.skip(1);
        assert forall|j: int| 0 <= j < k - 1 implies !sep(#[trigger] t[j]) by {
            assert(t[j] == s[j + 1]);
        }
        lemma_run_length(t, sep, k - 1);
    }
}

/// `run_length` stays within the sequence.
pub proof fn lemma_run_length_bounds<T>(s: Seq<T>, sep: spec_fn(T) -> bool)
    ensures
        0 <= run_length(s, sep) <= s.len(),
    decreases s.len(),
{
    if !(s.len() == 0 || sep(s[0])) {
        lemma_run_length_bounds(s.skip(1), sep);
    }
}

/// A filter that every item passes leaves the sequence as it is.
pub proof fn lemma_filter_all<T>(s: Seq<T>, keep: spec_fn(T) -> bool)
    requires
        forall|i: int| 0 <= i < s.len() ==> keep(#[trigger] s[i]),
    ensures
        s.filter(keep) == s,
    decreases s.len(),
{
    reveal(Seq::filter);
    if s.len() > 0 {
        lemma_filter_all(s.drop_last(), keep);
        assert(s.drop_last().push(s.last()) == s);
    }
}

} // verus!
