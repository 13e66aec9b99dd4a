//! Stable sorting.

use vstd::prelude::*;

verus! {

/// Values that have a rank among each other.
pub trait Ranked: View + Sized {
    /// `a` ranks no higher than `b`.
    spec fn ranks(a: Self::V, b: Self::V) -> bool;

    /// Any two values can be compared.
    proof fn rank_is_total(a: Self::V, b: Self::V)
        ensures
            Self::ranks(a, b) || Self::ranks(b, a),
    ;

    /// Ranks can be compared through a third value.
    proof fn rank_is_transitive(a: Self::V, b: Self::V, c: Self::V)
        requires
            Self::ranks(a, b),
            Self::ranks(b, c),
        ensures
            Self::ranks(a, c),
    ;

    /// Tells whether this value ranks no higher than the other.
    fn ranks_below(&self, other: &Self) -> (b: bool)
        ensures
            b == Self::ranks(self@, other@),
    ;
}

impl Ranked for usize {
    open spec fn ranks(a: usize, b: usize) -> bool {
        a <= b
    }

    proof fn rank_is_total(a: usize, b: usize) {
    }

    proof fn rank_is_transitive(a: usize, b: usize, c: usize) {
    }

    fn ranks_below(&self, other: &Self) -> (b: bool) {
        *self <= *other
    }
}

/// What the values of a list stand for.
pub open spec fn views<T: View>(list: Seq<T>) -> Seq<T::V> {
    list.map_values(|x: T| x@)
}

/// The values of the same rank as `x`.
pub open spec fn tied<T: Ranked>(x: T::V) -> spec_fn(T::V) -> bool {
    |y: T::V| T::ranks(x, y) && T::ranks(y, x)
}

/// Each value ranks no higher than the ones after it.
pub open spec fn is_sorted<T: Ranked>(list: Seq<T::V>) -> bool {
    forall|i: int, j: int|
        0 <= i < j < list.len() ==> T::ranks(#[trigger] list[i], #[trigger] list[j])
}

/// `output` holds what `input` holds, sorted, with values of the same rank in their old order.
pub open spec fn is_stable_sort<T: Ranked>(input: Seq<T::V>, output: Seq<T::V>) -> bool {
    &&& is_sorted::<T>(output)
    &&& output.to_multiset() == input.to_multiset()
    &&& forall|x: T::V| #[trigger] output.filter(tied::<T>(x)) == input.filter(tied::<T>(x))
}

/// Inserting a value behind everything that ranks no higher extends a stable sort.
proof fn lemma_insert<T: Ranked>(input: Seq<T::V>, output: Seq<T::V>, pos: int, x: T::V)
    requires
        is_stable_sort::<T>(input, output),
        0 <= pos <= output.len(),
        pos > 0 ==> T::ranks(output[pos - 1], x),
        forall|i: int| pos <= i < output.len() ==> !T::ranks(#[trigger] output[i], x),
    ensures
        is_stable_sort::<T>(input.push(x), output.insert(pos, x)),
{
    let longer = output.insert(pos, x);
    assert forall|i: int, j: int| 0 <= i < j < longer.len() implies T::ranks(
        #[trigger] longer[i],
        #[trigger] longer[j],
    ) by {
        let old_i = if i < pos { i } else { i - 1 };
        let old_j = if j < pos { j } else { j - 1 };
        if i == pos {
            assert(!T::ranks(output[old_j], x));
            T::rank_is_total(output[old_j], x);
        } else if j == pos {
            if i < pos - 1 {
                assert(T::ranks(output[i], output[pos - 1]));
                T::rank_is_transitive(output[i], output[pos - 1], x);
            }
        } else {
            assert(T::ranks(output[old_i], output[old_j]));
        }
    }
    vstd::seq_lib::to_multiset_insert(output, pos, x);
    vstd::seq_lib::to_multiset_build(input, x);
    assert forall|c: T::V| #[trigger] longer.filter(tied::<T>(c)) == input.push(x).filter(
        tied::<T>(c),
    ) by {
        let p = tied::<T>(c);
        let low = output.take(pos);
        let high = output.skip(pos);
        assert(output =~= low + high);
        assert(longer =~= low.push(x) + high);
        Seq::filter_distributes_over_add(low, high, p);
        Seq::filter_distributes_over_add(low.push(x), high, p);
        low.lemma_filter_push(x, p);
        input.lemma_filter_push(x, p);
        assert(output.filter(p) == input.filter(p));
        if p(x) {
            assert forall|i: int| 0 <= i < high.len() implies !p(#[trigger] high[i]) by {
                assert(high[i] == output[pos + i]);
                if p(high[i]) {
                    T::rank_is_transitive(high[i], c, x);
                }
            }
            lemma_filter_none(high, p);
            assert(low.filter(p) + high.filter(p) =~= low.filter(p));
            assert(low.filter(p).push(x) + high.filter(p) =~= low.filter(p).push(x));
        }
    }
}

/// Filtering a list of which nothing is kept leaves nothing.
pub proof fn lemma_filter_none<A>(list: Seq<A>, keep: spec_fn(A) -> bool)
    requires
        forall|i: int| 0 <= i < list.len() ==> !keep(#[trigger] list[i]),
    ensures
        list.filter(keep) == Seq::<A>::empty(),
    decreases list.len(),
{
    reveal(Seq::filter);
    if list.len() > 0 {
        let front = list.drop_last();
        assert forall|i: int| 0 <= i < front.len() implies !keep(#[trigger] front[i]) by {
            assert(front[i] == list[i]);
        }
        assert(!keep(list[list.len() - 1]));
        lemma_filter_none(front, keep);
    }
}

/// Sorts a list; values of the same rank keep their order.
pub fn stable_sort<T: Ranked>(items: Vec<T>) -> (sorted: Vec<T>)
    ensures
        is_stable_sort::<T>(views(items@), views(sorted@)),
{
    let ghost input = views(items@);
    let mut rest: Vec<T> = items;
    let mut sorted: Vec<T> = Vec::new();
    let ghost mut k: int = 0;
    proof {
        assert(input.take(0) =~= Seq::empty());
        assert(views(sorted@) =~= Seq::empty());
        assert(is_stable_sort::<T>(Seq::empty(), Seq::empty()));
    }
    while rest.len() > 0
        invariant
            0 <= k <= input.len(),
            views(rest@) == input.skip(k),
            is_stable_sort::<T>(input.take(k), views(sorted@)),
        decreases rest@.len(),
    {
        let ghost old_rest = rest@;
        let ghost old_sorted = views(sorted@);
        let item: T = rest.remove(0);
        proof {
            assert(views(old_rest).len() == input.skip(k).len());
            assert(views(old_rest)[0] == input.skip(k)[0]);
            assert(views(rest@) =~= input.skip(k + 1)) by {
                assert forall|i: int| 0 <= i < rest@.len() implies views(rest@)[i] == input.skip(
                    k + 1,
                )[i] by {
                    assert(views(old_rest)[i + 1] == input.skip(k)[i + 1]);
                }
            }
        }
        let mut pos: usize = sorted.len();
        while pos > 0 && !sorted[pos - 1].ranks_below(&item)
            invariant
                pos <= sorted@.len(),
                old_sorted == views(sorted@),
                forall|i: int| pos <= i < old_sorted.len() ==> !T::ranks(#[trigger] old_sorted[i], item@),
            decreases pos,
        {
            assert(old_sorted[pos - 1] == sorted@[pos - 1]@);
            pos = pos - 1;
        }
        proof {
            if pos > 0 {
                assert(old_sorted[pos - 1] == sorted@[pos - 1]@);
            }
            lemma_insert::<T>(input.take(k), old_sorted, pos as int, item@);
            assert(input.take(k).push(item@) =~= input.take(k + 1));
        }
        sorted.insert(pos, item);
        assert(views(sorted@) =~= old_sorted.insert(pos as int, item@));
        proof {
            k = k + 1;
        }
    }
    assert(input.skip(k).len() == 0);
    assert(input.take(k) =~= input);
    sorted
}

/// There is only one stable sort of a list.
pub proof fn law_stable_sort_is_unique<T: Ranked>(input: Seq<T::V>, a: Seq<T::V>, b: Seq<T::V>)
    requires
        is_stable_sort::<T>(input, a),
        is_stable_sort::<T>(input, b),
    ensures
        a == b,
{
    assert forall|x: T::V| #[trigger] a.filter(tied::<T>(x)) == b.filter(tied::<T>(x)) by {
        assert(a.filter(tied::<T>(x)) == input.filter(tied::<T>(x)));
        assert(b.filter(tied::<T>(x)) == input.filter(tied::<T>(x)));
    }
    lemma_same_classes::<T>(a, b);
}

/// What the last value of a list ties with, it is the last of.
proof fn lemma_last_of_class<T: Ranked>(list: Seq<T::V>, x: T::V)
    requires
        list.len() > 0,
        tied::<T>(x)(list.last()),
    ensures
        list.filter(tied::<T>(x)).len() > 0,
        list.filter(tied::<T>(x)).last() == list.last(),
        list.filter(tied::<T>(x)).drop_last() == list.drop_last().filter(tied::<T>(x)),
{
    let front = list.drop_last();
    assert(list =~= front.push(list.last()));
    front.lemma_filter_push(list.last(), tied::<T>(x));
    assert(list.filter(tied::<T>(x)).drop_last() =~= front.filter(tied::<T>(x)));
}

/// In a sorted list, a value ranks no higher than the last.
proof fn lemma_below_last<T: Ranked>(list: Seq<T::V>, x: T::V)
    requires
        is_sorted::<T>(list),
        list.filter(tied::<T>(x)).len() > 0,
    ensures
        list.len() > 0,
        T::ranks(x, list.last()),
{
    let class = list.filter(tied::<T>(x));
    list.lemma_filter_pred(tied::<T>(x), 0);
    assert(class.contains(class[0]));
    list.lemma_filter_contains_rev(tied::<T>(x), class[0]);
    let p = list.index_of(class[0]);
    if p < list.len() - 1 {
        assert(T::ranks(list[p], list[list.len() - 1]));
        T::rank_is_transitive(x, list[p], list.last());
    }
}

proof fn lemma_same_classes<T: Ranked>(a: Seq<T::V>, b: Seq<T::V>)
    requires
        is_sorted::<T>(a),
        is_sorted::<T>(b),
        forall|x: T::V| #[trigger] a.filter(tied::<T>(x)) == b.filter(tied::<T>(x)),
    ensures
        a == b,
    decreases a.len(),
{
    if a.len() == 0 {
        if b.len() > 0 {
            let y = b.last();
            T::rank_is_total(y, y);
            lemma_last_of_class::<T>(b, y);
            assert(a.filter(tied::<T>(y)) == b.filter(tied::<T>(y)));
            lemma_below_last::<T>(a, y);
        }
        assert(a =~= b);
    } else {
        let x = a.last();
        T::rank_is_total(x, x);
        lemma_last_of_class::<T>(a, x);
        assert(a.filter(tied::<T>(x)) == b.filter(tied::<T>(x)));
        lemma_below_last::<T>(b, x);
        let y = b.last();
        T::rank_is_total(y, y);
        lemma_last_of_class::<T>(b, y);
        assert(a.filter(tied::<T>(y)) == b.filter(tied::<T>(y)));
        lemma_below_last::<T>(a, y);
        lemma_last_of_class::<T>(b, x);
        assert(x == y);
        let (front, other) = (a.drop_last(), b.drop_last());
        assert forall|z: T::V| #[trigger] front.filter(tied::<T>(z)) == other.filter(
            tied::<T>(z),
        ) by {
            let p = tied::<T>(z);
            assert(a.filter(p) == b.filter(p));
            assert(a =~= front.push(x));
            assert(b =~= other.push(x));
            front.lemma_filter_push(x, p);
            other.lemma_filter_push(x, p);
            if p(x) {
                lemma_last_of_class::<T>(a, z);
                lemma_last_of_class::<T>(b, z);
            }
        }
        assert(is_sorted::<T>(front)) by {
            assert forall|i: int, j: int| 0 <= i < j < front.len() implies T::ranks(
                #[trigger] front[i],
                #[trigger] front[j],
            ) by {
                assert(T::ranks(a[i], a[j]));
            }
        }
        assert(is_sorted::<T>(other)) by {
            assert forall|i: int, j: int| 0 <= i < j < other.len() implies T::ranks(
                #[trigger] other[i],
                #[trigger] other[j],
            ) by {
                assert(T::ranks(b[i], b[j]));
            }
        }
        lemma_same_classes::<T>(front, other);
        assert(a =~= front.push(x));
        assert(b =~= other.push(y));
    }
}

} // verus!
