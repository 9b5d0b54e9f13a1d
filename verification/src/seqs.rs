use vstd::prelude::*;

verus! {

/// `i` is the first position of `s` whose element satisfies `pred`.
pub open spec fn is_first_where<A>(s: Seq<A>, pred: spec_fn(A) -> bool, i: int) -> bool {
    &&& 0 <= i < s.len()
    &&& pred(s[i])
    &&& forall|j: int| 0 <= j < i ==> !pred(#[trigger] s[j])
}

/// The first position of `s` whose element satisfies `pred`, if there is one.
pub open spec fn first_where<A>(s: Seq<A>, pred: spec_fn(A) -> bool) -> Option<int> {
    if exists|i: int| is_first_where(s, pred, i) {
        Some(choose|i: int| is_first_where(s, pred, i))
    } else {
        None
    }
}

/// A position that is first is the one that `first_where` names.
pub proof fn lemma_first_where_found<A>(s: Seq<A>, pred: spec_fn(A) -> bool, i: int)
    requires
        is_first_where(s, pred, i),
    ensures
        first_where(s, pred) == Some(i),
{
    let k = choose|k: int| is_first_where(s, pred, k);
    assert(is_first_where(s, pred, k));
    if k < i {
        assert(!pred(s[k]));
    }
    if i < k {
        assert(!pred(s[i]));
    }
}

/// Where no element satisfies `pred`, `first_where` names none.
pub proof fn lemma_first_where_absent<A>(s: Seq<A>, pred: spec_fn(A) -> bool)
    requires
        forall|j: int| 0 <= j < s.len() ==> !pred(#[trigger] s[j]),
    ensures
        first_where(s, pred) is None,
{
    assert forall|i: int| !is_first_where(s, pred, i) by {
        if 0 <= i < s.len() {
            assert(!pred(s[i]));
        }
    }
}

/// Some position is first as soon as any element satisfies `pred`.
pub proof fn lemma_first_where_exists<A>(s: Seq<A>, pred: spec_fn(A) -> bool, k: int)
    requires
        0 <= k < s.len(),
        pred(s[k]),
    ensures
        first_where(s, pred) is Some,
        first_where(s, pred)->0 <= k,
    decreases k,
{
    if forall|j: int| 0 <= j < k ==> !pred(#[trigger] s[j]) {
        lemma_first_where_found(s, pred, k);
    } else {
        let j = choose|j: int| 0 <= j < k && pred(#[trigger] s[j]);
        lemma_first_where_exists(s, pred, j);
    }
}

/// What `first_where` names is a first position, and it names none only
/// where no element satisfies `pred`.
pub proof fn lemma_first_where<A>(s: Seq<A>, pred: spec_fn(A) -> bool)
    ensures
        match first_where(s, pred) {
            Some(i) => is_first_where(s, pred, i),
            None => forall|j: int| 0 <= j < s.len() ==> !pred(#[trigger] s[j]),
        },
{
    if first_where(s, pred) is None {
        assert forall|j: int| 0 <= j < s.len() implies !pred(#[trigger] s[j]) by {
            if pred(s[j]) {
                lemma_first_where_exists(s, pred, j);
            }
        }
    }
}

/// Filtering keeps, as its last element, the last element that satisfies
/// the predicate.
pub proof fn lemma_filter_last<A>(s: Seq<A>, pred: spec_fn(A) -> bool, at: int)
    requires
        0 <= at < s.len(),
        pred(s[at]),
        forall|j: int| at < j < s.len() ==> !pred(#[trigger] s[j]),
    ensures
        s.filter(pred).len() > 0,
        s.filter(pred).last() == s[at],
    decreases s.len(),
{
    reveal(Seq::filter);
    if at < s.len() - 1 {
        assert(!pred(s[s.len() - 1]));
        lemma_filter_last(s.drop_last(), pred, at);
    }
}

/// Filtering leaves nothing where no element satisfies the predicate.
pub proof fn lemma_filter_none<A>(s: Seq<A>, pred: spec_fn(A) -> bool)
    requires
        forall|j: int| 0 <= j < s.len() ==> !pred(#[trigger] s[j]),
    ensures
        s.filter(pred).len() == 0,
    decreases s.len(),
{
    reveal(Seq::filter);
    if s.len() > 0 {
        assert(!pred(s[s.len() - 1]));
        lemma_filter_none(s.drop_last(), pred);
    }
}

/// The positions of `s` whose element satisfies `pred`.
pub open spec fn positions_where<A>(s: Seq<A>, pred: spec_fn(A) -> bool) -> Set<int> {
    Set::new(|i: int| 0 <= i < s.len() && pred(s[i]))
}

/// Filtering keeps as many elements as there are positions whose element
/// satisfies the predicate.
pub proof fn lemma_filter_counts<A>(s: Seq<A>, pred: spec_fn(A) -> bool)
    ensures
        positions_where(s, pred).finite(),
        s.filter(pred).len() == positions_where(s, pred).len(),
    decreases s.len(),
{
    reveal(Seq::filter);
    if s.len() == 0 {
        assert(positions_where(s, pred) =~= Set::<int>::empty());
    } else {
        let rest = s.drop_last();
        lemma_filter_counts(rest, pred);
        if pred(s.last()) {
            assert(positions_where(s, pred) =~= positions_where(rest, pred).insert(s.len() - 1));
        } else {
            assert(positions_where(s, pred) =~= positions_where(rest, pred));
        }
    }
}

/// Two predicates that agree on every element of `s` keep the same
/// elements.
pub proof fn lemma_filter_pointwise<A>(s: Seq<A>, p: spec_fn(A) -> bool, q: spec_fn(A) -> bool)
    requires
        forall|i: int| 0 <= i < s.len() ==> p(#[trigger] s[i]) == q(s[i]),
    ensures
        s.filter(p) == s.filter(q),
    decreases s.len(),
{
    reveal(Seq::filter);
    if s.len() > 0 {
        let rest = s.drop_last();
        assert forall|i: int| 0 <= i < rest.len() implies p(#[trigger] rest[i]) == q(rest[i]) by {
            assert(rest[i] == s[i]);
        }
        lemma_filter_pointwise(rest, p, q);
        assert(p(s[s.len() - 1]) == q(s[s.len() - 1]));
    }
}

/// Where `both` holds of an element exactly when one of `p` and `q` does,
/// and never both do, `both` keeps as many elements as `p` and `q`
/// together.
pub proof fn lemma_filter_split<A>(
    s: Seq<A>,
    both: spec_fn(A) -> bool,
    p: spec_fn(A) -> bool,
    q: spec_fn(A) -> bool,
)
    requires
        forall|i: int| 0 <= i < s.len() ==> both(#[trigger] s[i]) == (p(s[i]) || q(s[i])),
        forall|i: int| 0 <= i < s.len() ==> !(p(#[trigger] s[i]) && q(s[i])),
    ensures
        s.filter(both).len() == s.filter(p).len() + s.filter(q).len(),
    decreases s.len(),
{
    reveal(Seq::filter);
    if s.len() > 0 {
        let rest = s.drop_last();
        assert forall|i: int| 0 <= i < rest.len() implies both(#[trigger] rest[i]) == (p(rest[i])
            || q(rest[i])) by {
            assert(rest[i] == s[i]);
        }
        assert forall|i: int| 0 <= i < rest.len() implies !(p(#[trigger] rest[i]) && q(
            rest[i],
        )) by {
            assert(rest[i] == s[i]);
        }
        lemma_filter_split(rest, both, p, q);
        let last = s[s.len() - 1];
        assert(both(last) == (p(last) || q(last)));
        assert(!(p(last) && q(last)));
    }
}

/// No two elements of `s` have the same key.
pub open spec fn distinct_by<A, K>(s: Seq<A>, key: spec_fn(A) -> K) -> bool {
    forall|a: int, b: int| 0 <= a < b < s.len() ==> key(#[trigger] s[a]) != key(#[trigger] s[b])
}

/// Filtering a sequence of distinct keys leaves distinct keys.
pub proof fn lemma_filter_distinct<A, K>(s: Seq<A>, pred: spec_fn(A) -> bool, key: spec_fn(A) -> K)
    requires
        distinct_by(s, key),
    ensures
        distinct_by(s.filter(pred), key),
    decreases s.len(),
{
    reveal(Seq::filter);
    if s.len() > 0 {
        let rest = s.drop_last();
        let kept = rest.filter(pred);
        assert forall|a: int, b: int| 0 <= a < b < rest.len() implies key(#[trigger] rest[a])
            != key(#[trigger] rest[b]) by {
            assert(rest[a] == s[a]);
            assert(rest[b] == s[b]);
        }
        lemma_filter_distinct(rest, pred, key);
        if pred(s.last()) {
            let out = s.filter(pred);
            assert(out == kept.push(s.last()));
            assert forall|a: int, b: int| 0 <= a < b < out.len() implies key(#[trigger] out[a])
                != key(#[trigger] out[b]) by {
                if b < kept.len() {
                    assert(out[a] == kept[a]);
                    assert(out[b] == kept[b]);
                } else {
                    assert(out[a] == kept[a]);
                    assert(kept.contains(kept[a]));
                    rest.lemma_filter_contains_rev(pred, kept[a]);
                    let j = choose|j: int| 0 <= j < rest.len() && rest[j] == kept[a];
                    assert(s[j] == rest[j]);
                    assert(key(s[j]) != key(s[s.len() - 1]));
                }
            }
        }
    }
}

/// What holds of every element of every sequence holds of every element of
/// their concatenation.
pub proof fn lemma_flatten_all<A>(ss: Seq<Seq<A>>, holds: spec_fn(A) -> bool)
    requires
        forall|i: int, k: int| 0 <= i < ss.len() && 0 <= k < ss[i].len() ==> holds(#[trigger] ss[i][k]),
    ensures
        forall|j: int| 0 <= j < ss.flatten().len() ==> holds(#[trigger] ss.flatten()[j]),
    decreases ss.len(),
{
    if ss.len() > 0 {
        let rest = ss.drop_last();
        assert forall|i: int, k: int| 0 <= i < rest.len() && 0 <= k < rest[i].len() implies holds(
            #[trigger] rest[i][k],
        ) by {
            assert(rest[i] == ss[i]);
        }
        lemma_flatten_all(rest, holds);
        rest.lemma_flatten_push(ss.last());
        assert(rest.push(ss.last()) =~= ss);
        assert forall|j: int| 0 <= j < ss.flatten().len() implies holds(
            #[trigger] ss.flatten()[j],
        ) by {
            if j < rest.flatten().len() {
                assert(ss.flatten()[j] == rest.flatten()[j]);
            } else {
                assert(ss.flatten()[j] == ss[ss.len() - 1][j - rest.flatten().len()]);
            }
        }
    }
}

/// `k` is the one position of `s` whose element satisfies `pred`.
pub open spec fn is_only_where<A>(s: Seq<A>, pred: spec_fn(A) -> bool, k: int) -> bool {
    &&& 0 <= k < s.len()
    &&& pred(s[k])
    &&& forall|m: int| 0 <= m < s.len() && pred(#[trigger] s[m]) ==> m == k
}

/// No position of `s` holds an element that satisfies `pred`.
pub open spec fn none_where<A>(s: Seq<A>, pred: spec_fn(A) -> bool) -> bool {
    forall|k: int| 0 <= k < s.len() ==> !pred(#[trigger] s[k])
}

} // verus!
