//! Facts about sequences that several modules lean on.

use vstd::prelude::*;

verus! {

/// What a filter keeps passed the test and stood in the sequence, and keys
/// that were distinct stay distinct.
pub proof fn lemma_filter_keeps<A, K>(s: Seq<A>, keep: spec_fn(A) -> bool, key: spec_fn(A) -> K)
    requires
        s.map_values(key).no_duplicates(),
    ensures
        s.filter(keep).map_values(key).no_duplicates(),
        forall|i: int| 0 <= i < s.filter(keep).len() ==> keep(#[trigger] s.filter(keep)[i]),
        forall|i: int| 0 <= i < s.filter(keep).len() ==> s.contains(#[trigger] s.filter(keep)[i]),
        forall|i: int|
            0 <= i < s.len() && keep(s[i]) ==> s.filter(keep).contains(#[trigger] s[i]),
        s.filter(keep).len() <= s.len(),
    decreases s.len(),
{
    reveal(Seq::filter);
    if s.len() > 0 {
        let front = s.drop_last();
        let keys = s.map_values(key);
        let front_keys = front.map_values(key);
        assert forall|i: int, j: int|
            0 <= i < front_keys.len() && 0 <= j < front_keys.len() && i != j implies front_keys[i]
            != front_keys[j] by {
            assert(front_keys[i] == keys[i]);
            assert(front_keys[j] == keys[j]);
        }
        lemma_filter_keeps(front, keep, key);
        let kept_front = front.filter(keep);
        let kept = s.filter(keep);
        assert forall|i: int| 0 <= i < kept.len() implies s.contains(#[trigger] kept[i]) by {
            if i < kept_front.len() {
                assert(kept[i] == kept_front[i]);
                assert(front.contains(kept_front[i]));
                let w = choose|w: int| 0 <= w < front.len() && front[w] == kept_front[i];
                assert(s[w] == kept[i]);
            } else {
                assert(s[s.len() - 1] == kept[i]);
            }
        }
        assert forall|i: int| 0 <= i < s.len() && keep(s[i]) implies kept.contains(
            #[trigger] s[i],
        ) by {
            if i < front.len() {
                assert(front[i] == s[i]);
                assert(kept_front.contains(front[i]));
                let w = choose|w: int| 0 <= w < kept_front.len() && kept_front[w] == front[i];
                assert(kept[w] == s[i]);
            } else {
                assert(kept[kept.len() - 1] == s[i]);
            }
        }
        if keep(s.last()) {
            let kept_keys = kept.map_values(key);
            assert forall|i: int, j: int|
                0 <= i < kept_keys.len() && 0 <= j < kept_keys.len() && i != j implies kept_keys[i]
                != kept_keys[j] by {
                let last = kept.len() - 1;
                if i < last && j < last {
                    assert(kept_keys[i] == kept_front.map_values(key)[i]);
                    assert(kept_keys[j] == kept_front.map_values(key)[j]);
                } else {
                    let low = if i < last {
                        i
                    } else {
                        j
                    };
                    assert(kept[low] == kept_front[low]);
                    assert(front.contains(kept_front[low]));
                    let w = choose|w: int| 0 <= w < front.len() && front[w] == kept_front[low];
                    assert(keys[w] == key(kept[low]));
                    assert(keys[s.len() - 1] == key(kept[last]));
                }
            }
        }
    }
}

/// A filter over a sequence with one more element tests that element and
/// keeps what it kept before.
pub proof fn lemma_filter_step<A>(s: Seq<A>, keep: spec_fn(A) -> bool, n: int)
    requires
        0 <= n < s.len(),
    ensures
        s.take(n + 1).filter(keep) == if keep(s[n]) {
            s.take(n).filter(keep).push(s[n])
        } else {
            s.take(n).filter(keep)
        },
{
    reveal(Seq::filter);
    assert(s.take(n + 1).drop_last() =~= s.take(n));
    assert(s.take(n + 1).last() == s[n]);
}

/// A filter over nothing keeps nothing.
pub proof fn lemma_filter_none<A>(s: Seq<A>, keep: spec_fn(A) -> bool)
    ensures
        s.take(0).filter(keep) == Seq::<A>::empty(),
{
    reveal(Seq::filter);
    assert(s.take(0).filter(keep) =~= Seq::<A>::empty());
}

/// A filter keeps exactly the elements that pass the test.
pub proof fn lemma_filter_members<A>(s: Seq<A>, keep: spec_fn(A) -> bool)
    ensures
        forall|a: A| #[trigger] s.filter(keep).contains(a) <==> s.contains(a) && keep(a),
    decreases s.len(),
{
    reveal(Seq::filter);
    if s.len() > 0 {
        let front = s.drop_last();
        lemma_filter_members(front, keep);
        let kept = s.filter(keep);
        let kept_front = front.filter(keep);
        assert forall|a: A| #[trigger] kept.contains(a) <==> s.contains(a) && keep(a) by {
            if kept.contains(a) {
                let w = choose|w: int| 0 <= w < kept.len() && kept[w] == a;
                if w < kept_front.len() {
                    assert(kept_front[w] == a);
                    assert(kept_front.contains(a));
                    let v = choose|v: int| 0 <= v < front.len() && front[v] == a;
                    assert(s[v] == a);
                } else {
                    assert(s[s.len() - 1] == a);
                }
            }
            if s.contains(a) && keep(a) {
                let v = choose|v: int| 0 <= v < s.len() && s[v] == a;
                if v < front.len() {
                    assert(front[v] == a);
                    assert(kept_front.contains(a));
                    let w = choose|w: int| 0 <= w < kept_front.len() && kept_front[w] == a;
                    assert(kept[w] == a);
                } else {
                    assert(kept[kept.len() - 1] == a);
                }
            }
        }
    } else {
        assert forall|a: A| #[trigger] s.filter(keep).contains(a) <==> s.contains(a) && keep(a) by {}
    }
}

/// A filter that every element passes keeps the sequence.
pub proof fn lemma_filter_all<A>(s: Seq<A>, keep: spec_fn(A) -> bool)
    requires
        forall|i: int| 0 <= i < s.len() ==> keep(#[trigger] s[i]),
    ensures
        s.filter(keep) == s,
    decreases s.len(),
{
    reveal(Seq::filter);
    if s.len() > 0 {
        lemma_filter_all(s.drop_last(), keep);
        assert(s.drop_last().push(s.last()) =~= s);
    } else {
        assert(s.filter(keep) =~= s);
    }
}

/// A filter that no element passes keeps nothing.
pub proof fn lemma_filter_nothing<A>(s: Seq<A>, keep: spec_fn(A) -> bool)
    requires
        forall|i: int| 0 <= i < s.len() ==> !keep(#[trigger] s[i]),
    ensures
        s.filter(keep).len() == 0,
    decreases s.len(),
{
    reveal(Seq::filter);
    if s.len() > 0 {
        lemma_filter_nothing(s.drop_last(), keep);
    }
}

} // verus!
