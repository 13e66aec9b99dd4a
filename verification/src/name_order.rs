//! The order of names, and lists of names in that order.

use vstd::prelude::*;
use vstd::string::*;

use crate::sort::{is_sorted, stable_sort, views, Ranked};
use crate::text::{chars_of, texts};

verus! {

/// `a` comes no later than `b`: the first character in which they differ decides, and the shorter
/// comes first where there is none.
pub open spec fn text_at_most(a: Seq<char>, b: Seq<char>) -> bool
    decreases a.len(),
{
    if a.len() == 0 {
        true
    } else if b.len() == 0 {
        false
    } else if a[0] == b[0] {
        text_at_most(a.skip(1), b.skip(1))
    } else {
        a[0] < b[0]
    }
}

/// Any two texts can be compared.
pub proof fn lemma_text_total(a: Seq<char>, b: Seq<char>)
    ensures
        text_at_most(a, b) || text_at_most(b, a),
    decreases a.len(),
{
    if a.len() > 0 && b.len() > 0 && a[0] == b[0] {
        lemma_text_total(a.skip(1), b.skip(1));
    }
}

/// Texts can be compared through a third.
pub proof fn lemma_text_transitive(a: Seq<char>, b: Seq<char>, c: Seq<char>)
    requires
        text_at_most(a, b),
        text_at_most(b, c),
    ensures
        text_at_most(a, c),
    decreases a.len(),
{
    if a.len() > 0 && b.len() > 0 && c.len() > 0 && a[0] == b[0] && b[0] == c[0] {
        lemma_text_transitive(a.skip(1), b.skip(1), c.skip(1));
    }
}

/// Texts of which neither comes later are equal.
pub proof fn lemma_text_antisymmetric(a: Seq<char>, b: Seq<char>)
    requires
        text_at_most(a, b),
        text_at_most(b, a),
    ensures
        a == b,
    decreases a.len(),
{
    if a.len() == 0 || b.len() == 0 {
        assert(a =~= b);
    } else {
        lemma_text_antisymmetric(a.skip(1), b.skip(1));
        assert(a =~= seq![a[0]] + a.skip(1));
        assert(b =~= seq![b[0]] + b.skip(1));
    }
}

/// Tells whether `a` comes no later than `b`.
pub fn is_text_at_most(a: &str, b: &str) -> (r: bool)
    ensures
        r == text_at_most(a@, b@),
{
    let left: Vec<char> = chars_of(a);
    let right: Vec<char> = chars_of(b);
    let mut i: usize = 0;
    assert(a@.skip(0) =~= a@ && b@.skip(0) =~= b@);
    while i < left.len() && i < right.len() && left[i] == right[i]
        invariant
            i <= left@.len(),
            i <= right@.len(),
            left@ == a@,
            right@ == b@,
            text_at_most(a@, b@) == text_at_most(a@.skip(i as int), b@.skip(i as int)),
        decreases left@.len() - i,
    {
        assert(a@.skip(i as int).skip(1) =~= a@.skip(i + 1));
        assert(b@.skip(i as int).skip(1) =~= b@.skip(i + 1));
        i = i + 1;
    }
    i == left.len() || (i < right.len() && left[i] < right[i])
}

impl Ranked for String {
    open spec fn ranks(a: Seq<char>, b: Seq<char>) -> bool {
        text_at_most(a, b)
    }

    proof fn rank_is_total(a: Seq<char>, b: Seq<char>) {
        lemma_text_total(a, b);
    }

    proof fn rank_is_transitive(a: Seq<char>, b: Seq<char>, c: Seq<char>) {
        lemma_text_transitive(a, b, c);
    }

    fn ranks_below(&self, other: &Self) -> (b: bool) {
        is_text_at_most(self.as_str(), other.as_str())
    }
}

/// Each name comes before the ones after it, so none occurs twice.
pub open spec fn strictly_ordered(names: Seq<Seq<char>>) -> bool {
    forall|i: int, j: int|
        0 <= i < j < names.len() ==> text_at_most(#[trigger] names[i], #[trigger] names[j])
            && names[i] != names[j]
}

/// `output` holds each name of `input` once, in order.
pub open spec fn is_name_set(input: Seq<Seq<char>>, output: Seq<Seq<char>>) -> bool {
    &&& strictly_ordered(output)
    &&& forall|name: Seq<char>| #[trigger] output.contains(name) <==> input.contains(name)
}

/// Sorts names and leaves out those that occur again.
pub fn sort_and_dedup(names: Vec<String>) -> (kept: Vec<String>)
    ensures
        is_name_set(texts(names@), texts(kept@)),
{
    let ghost input = texts(names@);
    assert(views(names@) =~= input);
    let sorted: Vec<String> = stable_sort(names);
    let ghost all = texts(sorted@);
    assert(views(sorted@) =~= all);
    let mut kept: Vec<String> = Vec::new();
    let mut i: usize = 0;
    while i < sorted.len()
        invariant
            i <= sorted@.len(),
            all == texts(sorted@),
            is_sorted::<String>(all),
            strictly_ordered(texts(kept@)),
            forall|name: Seq<char>| #[trigger]
                texts(kept@).contains(name) <==> all.take(i as int).contains(name),
            (kept@.len() > 0) == (i > 0),
            i > 0 ==> kept@[kept@.len() - 1]@ == all[i - 1],
        decreases sorted@.len() - i,
    {
        let ghost before = texts(kept@);
        proof {
            assert(all[i as int] == sorted@[i as int]@);
            assert(all.take(i + 1) =~= all.take(i as int).push(all[i as int]));
            assert forall|name: Seq<char>| #[trigger] all.take(i + 1).contains(name) <==> all.take(
                i as int,
            ).contains(name) || name == all[i as int] by {
                if all.take(i as int).contains(name) {
                    let p = all.take(i as int).index_of(name);
                    assert(all.take(i + 1)[p] == name);
                }
                assert(all.take(i + 1)[i as int] == all[i as int]);
            }
        }
        let n: usize = kept.len();
        if n == 0 || !(kept[n - 1] == sorted[i]) {
            kept.push(sorted[i].clone());
            proof {
                let after = texts(kept@);
                assert(after =~= before.push(all[i as int]));
                assert forall|a: int, b: int| 0 <= a < b < after.len() implies text_at_most(
                    #[trigger] after[a],
                    #[trigger] after[b],
                ) && after[a] != after[b] by {
                    if b < n {
                        assert(before[a] == after[a] && before[b] == after[b]);
                    } else {
                        assert(before[n - 1] == all[i - 1]);
                        assert(String::ranks(all[i - 1], all[i as int]));
                        if a < n - 1 {
                            assert(text_at_most(before[a], before[n - 1]));
                            lemma_text_transitive(before[a], all[i - 1], all[i as int]);
                            if before[a] == all[i as int] {
                                lemma_text_antisymmetric(before[a], all[i - 1]);
                            }
                        }
                    }
                }
                assert forall|name: Seq<char>| #[trigger] after.contains(name) <==> before.contains(
                    name,
                ) || name == all[i as int] by {
                    if before.contains(name) {
                        assert(after[before.index_of(name)] == name);
                    }
                    assert(after[n as int] == all[i as int]);
                }
            }
        } else {
            assert(before[n - 1] == all[i as int]);
            assert(before.contains(all[i as int]));
        }
        i = i + 1;
    }
    proof {
        assert(all.take(i as int) =~= all);
        assert forall|name: Seq<char>| #[trigger] texts(kept@).contains(name) <==> input.contains(
            name,
        ) by {
            vstd::seq_lib::to_multiset_contains(all, name);
            vstd::seq_lib::to_multiset_contains(input, name);
        }
    }
    kept
}

/// There is only one ordered list of the names of a list.
pub proof fn law_name_set_is_unique(input: Seq<Seq<char>>, a: Seq<Seq<char>>, b: Seq<Seq<char>>)
    requires
        is_name_set(input, a),
        is_name_set(input, b),
    ensures
        a == b,
    decreases a.len(),
{
    if a.len() == 0 {
        if b.len() > 0 {
            assert(b.contains(b[0]));
            assert(input.contains(b[0]));
            assert(a.contains(b[0]));
        }
        assert(a =~= b);
    } else {
        assert(a.contains(a.last()));
        assert(b.contains(a.last()));
        assert(b.contains(b.last()));
        assert(a.contains(b.last()));
        let p = b.index_of(a.last());
        let q = a.index_of(b.last());
        if a.last() != b.last() {
            assert(text_at_most(b[p], b[b.len() - 1]));
            assert(text_at_most(a[q], a[a.len() - 1]));
            lemma_text_antisymmetric(a.last(), b.last());
        }
        let (x, y) = (a.drop_last(), b.drop_last());
        assert forall|name: Seq<char>| #[trigger] y.contains(name) <==> x.contains(name) by {
            if x.contains(name) {
                let i = x.index_of(name);
                assert(a[i] == name && a.contains(name) && name != a[a.len() - 1]);
                assert(b.contains(name));
                let j = b.index_of(name);
                assert(y[j] == name);
            }
            if y.contains(name) {
                let j = y.index_of(name);
                assert(b[j] == name && b.contains(name) && name != b[b.len() - 1]);
                assert(a.contains(name));
                let i = a.index_of(name);
                assert(x[i] == name);
            }
        }
        assert(strictly_ordered(x)) by {
            assert forall|i: int, j: int| 0 <= i < j < x.len() implies text_at_most(
                #[trigger] x[i],
                #[trigger] x[j],
            ) && x[i] != x[j] by {
                assert(x[i] == a[i] && x[j] == a[j]);
            }
        }
        assert(strictly_ordered(y)) by {
            assert forall|i: int, j: int| 0 <= i < j < y.len() implies text_at_most(
                #[trigger] y[i],
                #[trigger] y[j],
            ) && y[i] != y[j] by {
                assert(y[i] == b[i] && y[j] == b[j]);
            }
        }
        law_name_set_is_unique(x, x, y);
        assert(a =~= x.push(a.last()));
        assert(b =~= y.push(b.last()));
    }
}

} // verus!
