//! Order-preserving subsequences, and how filtering a sequence relates to
//! them.

use vstd::prelude::*;

verus! {

/// `picks` names positions of `full`, in rising order, and `sub` holds what
/// stands at them.
pub open spec fn picks_out<A>(picks: Seq<int>, full: Seq<A>, sub: Seq<A>) -> bool {
    &&& picks.len() == sub.len()
    &&& forall|k: int|
        0 <= k < picks.len() ==> 0 <= #[trigger] picks[k] < full.len() && full[picks[k]] == sub[k]
    &&& forall|j: int, k: int| 0 <= j < k < picks.len() ==> picks[j] < picks[k]
}

/// `sub` arises from `full` by leaving elements out: what stays keeps its
/// order, and no position of `full` is used twice.
pub open spec fn is_subsequence<A>(sub: Seq<A>, full: Seq<A>) -> bool {
    exists|picks: Seq<int>| picks_out(picks, full, sub)
}

/// Every sequence is a subsequence of itself.
pub proof fn lemma_subsequence_reflexive<A>(s: Seq<A>)
    ensures
        is_subsequence(s, s),
{
    let picks = Seq::new(s.len(), |k: int| k);
    assert(picks_out(picks, s, s));
}

/// A subsequence of a subsequence is a subsequence.
pub proof fn lemma_subsequence_transitive<A>(a: Seq<A>, b: Seq<A>, c: Seq<A>)
    requires
        is_subsequence(a, b),
        is_subsequence(b, c),
    ensures
        is_subsequence(a, c),
{
    let inner = choose|picks: Seq<int>| picks_out(picks, b, a);
    let outer = choose|picks: Seq<int>| picks_out(picks, c, b);
    let picks = Seq::new(a.len(), |k: int| outer[inner[k]]);
    assert forall|k: int| 0 <= k < picks.len() implies 0 <= #[trigger] picks[k] < c.len()
        && c[picks[k]] == a[k] by {
        assert(0 <= inner[k] < b.len());
    }
    assert forall|j: int, k: int| 0 <= j < k < picks.len() implies picks[j] < picks[k] by {
        assert(0 <= inner[j] < inner[k] < b.len());
    }
    assert(picks_out(picks, c, a));
}

/// A sequence without its last element is a subsequence of it.
pub proof fn lemma_drop_last_is_subsequence<A>(s: Seq<A>)
    requires
        s.len() > 0,
    ensures
        is_subsequence(s.drop_last(), s),
{
    let picks = Seq::new((s.len() - 1) as nat, |k: int| k);
    assert(picks_out(picks, s, s.drop_last()));
}

/// What a filter keeps is a subsequence of what it was given.
pub proof fn lemma_filter_is_subsequence<A>(s: Seq<A>, keep: spec_fn(A) -> bool)
    ensures
        is_subsequence(s.filter(keep), s),
    decreases s.len(),
{
    reveal(Seq::filter);
    if s.len() == 0 {
        assert(picks_out(Seq::<int>::empty(), s, s.filter(keep)));
    } else {
        let front = s.drop_last();
        lemma_filter_is_subsequence(front, keep);
        let earlier = choose|picks: Seq<int>| picks_out(picks, front, front.filter(keep));
        assert forall|k: int| 0 <= k < earlier.len() implies 0 <= #[trigger] earlier[k]
            < front.len() && s[earlier[k]] == front.filter(keep)[k] by {
            assert(front[earlier[k]] == s[earlier[k]]);
        }
        if keep(s.last()) {
            // The last element stays, at the last position.
            let picks = earlier.push(s.len() - 1);
            assert forall|j: int, k: int| 0 <= j < k < picks.len() implies picks[j]
                < picks[k] by {
                assert(0 <= earlier[j] < front.len());
            }
            assert(picks_out(picks, s, s.filter(keep)));
        } else {
            assert(picks_out(earlier, s, s.filter(keep)));
        }
    }
}

/// Filtering by a condition gives the same as filtering by a weaker one
/// first.
pub proof fn lemma_filter_through<A>(s: Seq<A>, keep: spec_fn(A) -> bool, wider: spec_fn(A) -> bool)
    requires
        forall|k: int| 0 <= k < s.len() && keep(#[trigger] s[k]) ==> wider(s[k]),
    ensures
        s.filter(keep) == s.filter(wider).filter(keep),
    decreases s.len(),
{
    reveal(Seq::filter);
    if s.len() > 0 {
        let front = s.drop_last();
        assert forall|k: int| 0 <= k < front.len() && keep(#[trigger] front[k]) implies wider(
            front[k],
        ) by {
            assert(front[k] == s[k]);
        }
        lemma_filter_through(front, keep, wider);
        assert(keep(s[s.len() - 1]) ==> wider(s[s.len() - 1]));
        if wider(s.last()) {
            front.filter(wider).lemma_filter_push(s.last(), keep);
        }
    }
}

/// A filter whose condition holds of every element keeps the sequence whole.
pub proof fn lemma_filter_all<A>(s: Seq<A>, keep: spec_fn(A) -> bool)
    requires
        forall|k: int| 0 <= k < s.len() ==> keep(#[trigger] s[k]),
    ensures
        s.filter(keep) == s,
    decreases s.len(),
{
    reveal(Seq::filter);
    if s.len() > 0 {
        let front = s.drop_last();
        assert forall|k: int| 0 <= k < front.len() implies keep(#[trigger] front[k]) by {
            assert(front[k] == s[k]);
        }
        lemma_filter_all(front, keep);
        assert(keep(s[s.len() - 1]));
        assert(s.filter(keep) =~= s);
    }
}

/// An element stands among what a filter keeps as often as in the sequence
/// itself if it meets the condition, and not at all if it does not.
pub proof fn lemma_filter_count<A>(s: Seq<A>, keep: spec_fn(A) -> bool, x: A)
    ensures
        s.filter(keep).to_multiset().count(x) == if keep(x) {
            s.to_multiset().count(x)
        } else {
            0
        },
    decreases s.len(),
{
    broadcast use vstd::seq_lib::group_to_multiset_ensures;

    reveal(Seq::filter);
    if s.len() > 0 {
        let front = s.drop_last();
        lemma_filter_count(front, keep, x);
        assert(s =~= front.push(s.last()));
        if keep(s.last()) {
            assert(s.filter(keep).to_multiset() =~= front.filter(keep).to_multiset().insert(
                s.last(),
            ));
        }
    }
}

/// Filtering the images of a sequence under `f` is filtering the sequence
/// itself and taking the images after, where the two conditions agree.
pub proof fn lemma_filter_of_images<A, B>(
    s: Seq<A>,
    f: spec_fn(A) -> B,
    keep: spec_fn(A) -> bool,
    keep_image: spec_fn(B) -> bool,
)
    requires
        forall|k: int| 0 <= k < s.len() ==> keep_image(f(#[trigger] s[k])) == keep(s[k]),
    ensures
        s.map_values(f).filter(keep_image) == s.filter(keep).map_values(f),
    decreases s.len(),
{
    reveal(Seq::filter);
    if s.len() == 0 {
        assert(s.map_values(f).filter(keep_image) =~= s.filter(keep).map_values(f));
    } else {
        let front = s.drop_last();
        assert forall|k: int| 0 <= k < front.len() implies keep_image(f(#[trigger] front[k]))
            == keep(front[k]) by {
            assert(front[k] == s[k]);
        }
        lemma_filter_of_images(front, f, keep, keep_image);
        assert(s.map_values(f).drop_last() =~= front.map_values(f));
        assert(keep_image(f(s[s.len() - 1])) == keep(s[s.len() - 1]));
        assert(s.map_values(f).filter(keep_image) =~= s.filter(keep).map_values(f));
    }
}

} // verus!
