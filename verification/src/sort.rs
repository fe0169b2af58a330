//! Stable sorting by a strict "comes before" relation on the views of the
//! elements, as `slice::sort_by` orders them.
use vstd::prelude::*;

verus! {

/// `x` put into `s` just after the last element that it does not come before.
pub open spec fn insert_sorted<V>(s: Seq<V>, x: V, lt: spec_fn(V, V) -> bool) -> Seq<V>
    decreases s.len(),
{
    if s.len() == 0 {
        seq![x]
    } else if lt(x, s.last()) {
        insert_sorted(s.drop_last(), x, lt).push(s.last())
    } else {
        s.push(x)
    }
}

/// `s` sorted stably by `lt`: each element in turn inserted after every earlier
/// element that it does not come before.
pub open spec fn sort_stable<V>(s: Seq<V>, lt: spec_fn(V, V) -> bool) -> Seq<V>
    decreases s.len(),
{
    if s.len() == 0 {
        s
    } else {
        insert_sorted(sort_stable(s.drop_last(), lt), s.last(), lt)
    }
}

/// The views of a sequence.
pub open spec fn seq_views<T: View>(s: Seq<T>) -> Seq<T::V> {
    s.map_values(|t: T| t@)
}

/// `s` is sorted by `lt`: no element comes before an element in front of it.
pub open spec fn is_sorted_by<V>(s: Seq<V>, lt: spec_fn(V, V) -> bool) -> bool {
    forall|i: int, j: int| 0 <= i < j < s.len() ==> !lt(#[trigger] s[j], #[trigger] s[i])
}

/// `lt` is a strict weak order: irreflexive and transitive, and "does not
/// come before" is transitive too.
pub open spec fn is_strict_weak_order<V>(lt: spec_fn(V, V) -> bool) -> bool {
    &&& forall|a: V| !#[trigger] lt(a, a)
    &&& forall|a: V, b: V, c: V| #[trigger] lt(a, b) && #[trigger] lt(b, c) ==> lt(a, c)
    &&& forall|a: V, b: V, c: V|
        #![trigger lt(a, b), lt(b, c)]
        !lt(a, b) && !lt(b, c) ==> !lt(a, c)
}

/// Inserting where the scan from the back stops gives `insert_sorted`.
pub proof fn lemma_insert_at<V>(s: Seq<V>, x: V, lt: spec_fn(V, V) -> bool, j: int)
    requires
        0 <= j <= s.len(),
        forall|k: int| j <= k < s.len() ==> lt(x, #[trigger] s[k]),
        j == 0 || !lt(x, s[j - 1]),
    ensures
        insert_sorted(s, x, lt) == s.insert(j, x),
    decreases s.len(),
{
    if s.len() == 0 {
        assert(s.insert(j, x) =~= seq![x]);
    } else if lt(x, s.last()) {
        assert(j < s.len());
        lemma_insert_at(s.drop_last(), x, lt, j);
        assert(s.drop_last().insert(j, x).push(s.last()) =~= s.insert(j, x));
    } else {
        assert(j == s.len());
        assert(s.push(x) =~= s.insert(j, x));
    }
}

/// Sorts `v` stably, where `less(a, b)` says whether `a` comes before `b` by
/// the relation `lt` on their views.
pub fn sort_by_view<T: View, F: Fn(&T, &T) -> bool>(
    v: Vec<T>,
    less: F,
    Ghost(lt): Ghost<spec_fn(T::V, T::V) -> bool>,
) -> (r: Vec<T>)
    requires
        forall|a: &T, b: &T| #[trigger] less.requires((a, b)),
        forall|a: &T, b: &T, res: bool| #[trigger] less.ensures((a, b), res) ==> res == lt(a@, b@),
    ensures
        seq_views(r@) == sort_stable(seq_views(v@), lt),
{
    let ghost input = seq_views(v@);
    let mut r: Vec<T> = Vec::new();
    let mut src = v;
    let mut rest: Vec<T> = Vec::new();
    let ghost n = input.len();
    assert(input.subrange(n as int, n as int).reverse() =~= seq_views(rest@));
    while src.len() > 0
        invariant
            n == input.len(),
            src@.len() <= n,
            seq_views(src@) == input.take(src@.len() as int),
            seq_views(rest@) == input.subrange(src@.len() as int, n as int).reverse(),
        decreases src@.len(),
    {
        let ghost k = src@.len() - 1;
        let ghost old_src = src@;
        let y = src.pop().unwrap();
        assert(y == old_src[k]);
        assert(seq_views(old_src)[k] == old_src[k]@);
        assert(input.take(k + 1)[k] == input[k]);
        assert(seq_views(src@) =~= input.take(k));
        let ghost before = seq_views(rest@);
        rest.push(y);
        assert(y@ == input[k]);
        assert(seq_views(rest@) =~= before.push(y@));
        assert(seq_views(rest@) =~= input.subrange(k, n as int).reverse());
    }
    assert(seq_views(rest@) =~= input.reverse());
    assert(input.take(0) =~= Seq::<T::V>::empty());
    while rest.len() > 0
        invariant
            forall|a: &T, b: &T| #[trigger] less.requires((a, b)),
            forall|a: &T, b: &T, res: bool| #[trigger] less.ensures((a, b), res) ==> res == lt(
                a@,
                b@,
            ),
            n == input.len(),
            rest@.len() <= n,
            seq_views(rest@) == input.skip(n - rest@.len()).reverse(),
            seq_views(r@) == sort_stable(input.take(n - rest@.len()), lt),
        decreases rest@.len(),
    {
        let ghost done = n - rest@.len();
        let ghost old_rest = rest@;
        let x = rest.pop().unwrap();
        assert(x == old_rest[old_rest.len() - 1]);
        assert(seq_views(old_rest)[old_rest.len() - 1] == old_rest[old_rest.len() - 1]@);
        assert(x@ == input[done]) by {
            assert(input.skip(done).reverse()[input.skip(done).len() - 1] == input.skip(done)[0]);
        }
        assert(seq_views(rest@) =~= seq_views(old_rest).drop_last());
        assert(seq_views(rest@) =~= input.skip(done + 1).reverse());
        let mut j = r.len();
        while j > 0 && less(&x, &r[j - 1])
            invariant
                forall|a: &T, b: &T| #[trigger] less.requires((a, b)),
                forall|a: &T, b: &T, res: bool| #[trigger] less.ensures((a, b), res) ==> res
                    == lt(a@, b@),
                j <= r@.len(),
                forall|k: int| j <= k < r@.len() ==> lt(x@, #[trigger] seq_views(r@)[k]),
            decreases j,
        {
            j = j - 1;
        }
        proof {
            lemma_insert_at(seq_views(r@), x@, lt, j as int);
            assert(input.take(done + 1).drop_last() =~= input.take(done));
        }
        let ghost before = seq_views(r@);
        r.insert(j, x);
        assert(seq_views(r@) =~= before.insert(j as int, x@));
    }
    assert(input.take(n as int) =~= input);
    r
}

/// `insert_sorted` puts `x` in at some index.
pub proof fn lemma_insert_sorted_index<V>(s: Seq<V>, x: V, lt: spec_fn(V, V) -> bool)
    ensures
        exists|j: int| 0 <= j <= s.len() && insert_sorted(s, x, lt) == s.insert(j, x),
    decreases s.len(),
{
    if s.len() == 0 {
        assert(insert_sorted(s, x, lt) == s.insert(0, x));
    } else if lt(x, s.last()) {
        lemma_insert_sorted_index(s.drop_last(), x, lt);
        let j = choose|j: int|
            0 <= j <= s.drop_last().len() && insert_sorted(s.drop_last(), x, lt)
                == s.drop_last().insert(j, x);
        assert(s.drop_last().insert(j, x).push(s.last()) =~= s.insert(j, x));
    } else {
        assert(s.push(x) =~= s.insert(s.len() as int, x));
    }
}

/// Sorting keeps the elements, each as often as it was there.
pub proof fn lemma_sort_stable_permutes<V>(s: Seq<V>, lt: spec_fn(V, V) -> bool)
    ensures
        sort_stable(s, lt).to_multiset() == s.to_multiset(),
        sort_stable(s, lt).len() == s.len(),
    decreases s.len(),
{
    broadcast use vstd::seq_lib::group_to_multiset_ensures;

    if s.len() > 0 {
        let s0 = s.drop_last();
        lemma_sort_stable_permutes(s0, lt);
        let r = sort_stable(s0, lt);
        lemma_insert_sorted_index(r, s.last(), lt);
        let j = choose|j: int| 0 <= j <= r.len() && insert_sorted(r, s.last(), lt) == r.insert(j, s.last());
        assert(s0.insert(s0.len() as int, s.last()) =~= s);
        assert(r.insert(j, s.last()).to_multiset() == r.to_multiset().insert(s.last()));
        assert(s0.insert(s0.len() as int, s.last()).to_multiset() == s0.to_multiset().insert(s.last()));
    }
}

/// Inserting into a sorted sequence keeps it sorted.
pub proof fn lemma_insert_sorted_sorted<V>(s: Seq<V>, x: V, lt: spec_fn(V, V) -> bool)
    requires
        is_strict_weak_order(lt),
        is_sorted_by(s, lt),
    ensures
        is_sorted_by(insert_sorted(s, x, lt), lt),
    decreases s.len(),
{
    if s.len() == 0 {
    } else if lt(x, s.last()) {
        let s0 = s.drop_last();
        let last = s.last();
        assert(is_sorted_by(s0, lt)) by {
            assert forall|i: int, j: int| 0 <= i < j < s0.len() implies !lt(s0[j], s0[i]) by {
                assert(s0[j] == s[j] && s0[i] == s[i]);
            }
        }
        lemma_insert_sorted_sorted(s0, x, lt);
        lemma_insert_sorted_index(s0, x, lt);
        let k = choose|k: int| 0 <= k <= s0.len() && insert_sorted(s0, x, lt) == s0.insert(k, x);
        let r0 = insert_sorted(s0, x, lt);
        let r = r0.push(last);
        assert forall|a: int, b: int| 0 <= a < b < r.len() implies !lt(r[b], r[a]) by {
            if b < r0.len() {
                assert(r[a] == r0[a] && r[b] == r0[b]);
            } else {
                assert(r[b] == last);
                assert(r[a] == r0[a]);
                if a == k {
                    assert(r0[a] == x);
                    if lt(last, x) {
                        assert(lt(x, x));
                    }
                } else if a < k {
                    assert(r0[a] == s0[a]);
                    assert(s0[a] == s[a]);
                    assert(!lt(s[s.len() - 1], s[a]));
                } else {
                    assert(r0[a] == s0[a - 1]);
                    assert(s0[a - 1] == s[a - 1]);
                    assert(!lt(s[s.len() - 1], s[a - 1]));
                }
            }
        }
    } else {
        let r = s.push(x);
        let last = s.last();
        assert forall|a: int, b: int| 0 <= a < b < r.len() implies !lt(r[b], r[a]) by {
            if b < s.len() {
                assert(r[a] == s[a] && r[b] == s[b]);
            } else {
                assert(r[b] == x && r[a] == s[a]);
                if a < s.len() - 1 {
                    assert(!lt(s[s.len() - 1], s[a]));
                    assert(!lt(x, last) && !lt(last, s[a]));
                }
            }
        }
    }
}

/// A stable sort by a strict weak order gives a sorted sequence.
pub proof fn lemma_sort_stable_sorted<V>(s: Seq<V>, lt: spec_fn(V, V) -> bool)
    requires
        is_strict_weak_order(lt),
    ensures
        is_sorted_by(sort_stable(s, lt), lt),
    decreases s.len(),
{
    if s.len() > 0 {
        lemma_sort_stable_sorted(s.drop_last(), lt);
        lemma_insert_sorted_sorted(sort_stable(s.drop_last(), lt), s.last(), lt);
    }
}

} // verus!
