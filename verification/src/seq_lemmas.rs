//! Facts about filtering a sequence.

use vstd::prelude::*;

verus! {

/// Filtering keeps a subsequence: `map` gives, for each position of the
/// result, the position it came from. Positions keep their order, and every
/// position whose element passes the test is hit.
pub proof fn lemma_filter_positions<A>(s: Seq<A>, pred: spec_fn(A) -> bool) -> (map: Seq<int>)
    ensures
        map.len() == s.filter(pred).len(),
        forall|k: int|
            0 <= k < map.len() ==> 0 <= #[trigger] map[k] < s.len() && s.filter(pred)[k]
                == s[map[k]] && pred(s[map[k]]),
        forall|a: int, b: int| 0 <= a < b < map.len() ==> #[trigger] map[a] < #[trigger] map[b],
        forall|i: int|
            0 <= i < s.len() && pred(#[trigger] s[i]) ==> exists|k: int|
                0 <= k < map.len() && #[trigger] map[k] == i,
    decreases s.len(),
{
    reveal(Seq::filter);
    if s.len() == 0 {
        Seq::empty()
    } else {
        let rest = lemma_filter_positions(s.drop_last(), pred);
        let last = s.len() - 1;
        let map = if pred(s.last()) {
            rest.push(last)
        } else {
            rest
        };
        assert forall|i: int| 0 <= i < s.len() && pred(#[trigger] s[i]) implies exists|k: int|
            0 <= k < map.len() && #[trigger] map[k] == i by {
            if i < last {
                assert(s.drop_last()[i] == s[i]);
                let k = choose|k: int| 0 <= k < rest.len() && #[trigger] rest[k] == i;
                assert(map[k] == i);
            } else {
                assert(map[map.len() - 1] == i);
            }
        }
        assert forall|k: int| 0 <= k < map.len() implies 0 <= #[trigger] map[k] < s.len()
            && s.filter(pred)[k] == s[map[k]] && pred(s[map[k]]) by {
            if k < rest.len() {
                assert(s.drop_last()[rest[k]] == s[rest[k]]);
            }
        }
        map
    }
}

/// Filtering a sequence whose every element passes the test changes nothing.
pub proof fn lemma_filter_all<A>(s: Seq<A>, pred: spec_fn(A) -> bool)
    requires
        forall|i: int| 0 <= i < s.len() ==> pred(#[trigger] s[i]),
    ensures
        s.filter(pred) == s,
    decreases s.len(),
{
    reveal(Seq::filter);
    if s.len() > 0 {
        assert(forall|i: int| 0 <= i < s.drop_last().len() ==> s.drop_last()[i] == s[i]);
        lemma_filter_all(s.drop_last(), pred);
        assert(s.drop_last().push(s.last()) =~= s);
    }
}

} // verus!
