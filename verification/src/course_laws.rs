//! How a build begins, goes on and is counted.

use vstd::prelude::*;

use crate::graph::{all_dependents, dependents_of, occurrences, BuildNodeState};
use crate::schedule::{
    ascending, build_fits, count_in, free_jobs, fresh, is_over, needs, next_started, node_fits,
    skipped_by, skipping, with_failure, with_started, with_success, BuildModel,
};
use crate::schedule_laws::{
    law_success_fits, lemma_ascending, lemma_count_none, lemma_dependents, lemma_unsatisfied_zero,
};
use crate::selection_laws::lemma_filter_same;

verus! {

/// A build begins with everything waiting for all that it lists, and with exactly that ready which
/// lists nothing, in the order of the plan.
pub proof fn law_build_begins(deps: Seq<Seq<int>>, max_jobs: int)
    ensures
        ({
            let model = fresh(deps, max_jobs);
            &&& model.deps == deps
            &&& model.max_jobs == max_jobs
            &&& model.running == 0
            &&& model.states.len() == deps.len()
            &&& model.remaining.len() == deps.len()
            &&& forall|i: int|
                0 <= i < deps.len() ==> #[trigger] model.states[i] == BuildNodeState::Pending
            &&& forall|i: int|
                0 <= i < deps.len() ==> #[trigger] model.remaining[i] == deps[i].len()
            &&& forall|i: int| #[trigger]
                model.ready.contains(i) <==> 0 <= i < deps.len() && deps[i].len() == 0
            &&& forall|a: int, b: int|
                0 <= a < b < model.ready.len() ==> #[trigger] model.ready[a]
                    < #[trigger] model.ready[b]
        }),
{
    lemma_ascending(deps.len(), |i: int| deps[i].len() == 0);
}

/// Nodes are started in the order in which they are ready, until all jobs are taken or nothing is
/// ready. Nothing but the nodes that are started changes.
pub proof fn law_all_free_jobs_are_used(model: BuildModel)
    requires
        build_fits(model),
    ensures
        ({
            let after = with_started(model);
            let nodes = next_started(model);
            &&& nodes + after.ready == model.ready
            &&& after.running == model.running + nodes.len()
            &&& after.running == model.max_jobs || after.ready.len() == 0
            &&& after.deps == model.deps
            &&& after.remaining == model.remaining
            &&& after.max_jobs == model.max_jobs
            &&& after.states.len() == model.states.len()
            &&& forall|i: int|
                0 <= i < model.states.len() ==> #[trigger] after.states[i] == (
                if nodes.contains(i) {
                    BuildNodeState::Running
                } else {
                    model.states[i]
                })
        }),
{
    let k = free_jobs(model);
    assert(model.ready.take(k) + model.ready.skip(k) =~= model.ready);
}

/// When a node succeeds, exactly those nodes become ready behind the others, in the order of the
/// plan, that wait, list it, and have everything else that they list built already.
pub proof fn law_success_frees_what_waited(model: BuildModel, node: int)
    requires
        build_fits(model),
        0 <= node < model.deps.len(),
        model.states[node] == BuildNodeState::Running,
    ensures
        ({
            let after = with_success(model, node);
            let new = after.ready.skip(model.ready.len() as int);
            &&& after.states == model.states.update(node, BuildNodeState::Succeeded)
            &&& after.running == model.running - 1
            &&& after.deps == model.deps
            &&& after.max_jobs == model.max_jobs
            &&& after.ready == model.ready + new
            &&& forall|a: int, b: int|
                0 <= a < b < new.len() ==> #[trigger] new[a] < #[trigger] new[b]
            &&& forall|i: int| #[trigger]
                new.contains(i) <==> {
                    &&& 0 <= i < model.deps.len()
                    &&& model.states[i] == BuildNodeState::Pending
                    &&& model.deps[i].contains(node)
                    &&& forall|k: int|
                        0 <= k < model.deps[i].len() && model.deps[i][k] != node
                            ==> model.states[#[trigger] model.deps[i][k]]
                            == BuildNodeState::Succeeded
                }
        }),
{
    let after = with_success(model, node);
    let pick = |i: int|
        after.states[i] == BuildNodeState::Pending && model.deps[i].contains(node)
            && after.remaining[i] == 0;
    let tail = ascending(model.deps.len(), pick);
    lemma_ascending(model.deps.len(), pick);
    law_success_fits(model, node);
    let new = after.ready.skip(model.ready.len() as int);
    assert(after.ready == model.ready + tail);
    assert(new =~= tail);
    assert forall|i: int| #[trigger] new.contains(i) <==> {
        &&& 0 <= i < model.deps.len()
        &&& model.states[i] == BuildNodeState::Pending
        &&& model.deps[i].contains(node)
        &&& forall|k: int|
            0 <= k < model.deps[i].len() && model.deps[i][k] != node
                ==> model.states[#[trigger] model.deps[i][k]] == BuildNodeState::Succeeded
    } by {
        if 0 <= i < model.deps.len() {
            let list = model.deps[i];
            assert(node_fits(after, i));
            lemma_unsatisfied_zero(list, after.states);
            assert forall|k: int| 0 <= k < list.len() implies after.states[#[trigger] list[k]] == (
            if list[k] == node {
                BuildNodeState::Succeeded
            } else {
                model.states[list[k]]
            }) by {
                assert(0 <= model.deps[i][k] < i);
            }
            if model.states[i] == BuildNodeState::Pending && list.contains(node) && (forall|k: int|
                0 <= k < list.len() && list[k] != node ==> model.states[#[trigger] list[k]]
                    == BuildNodeState::Succeeded) {
                assert forall|k: int| 0 <= k < list.len() implies after.states[#[trigger] list[k]]
                    == BuildNodeState::Succeeded by {}
                assert(pick(i));
            }
            if new.contains(i) {
                assert(pick(i));
                assert forall|k: int| 0 <= k < list.len() && list[k] != node implies model.states[
                    #[trigger] list[k]
                ] == BuildNodeState::Succeeded by {
                    assert(after.states[list[k]] == BuildNodeState::Succeeded);
                }
            }
        }
    }
}

/// Leaves out what needs a node.
pub open spec fn without(deps: Seq<Seq<int>>, node: int) -> spec_fn(int) -> bool {
    |i: int| !needs(deps, i, node)
}

/// When a node fails, exactly what waits and needs it is skipped. What is ready and does not need it
/// stays ready, in its order.
pub proof fn law_failure_stops_what_needs_it(model: BuildModel, node: int)
    requires
        build_fits(model),
        0 <= node < model.deps.len(),
        model.states[node] == BuildNodeState::Running,
    ensures
        ({
            let after = with_failure(model, node);
            &&& after.running == model.running - 1
            &&& after.deps == model.deps
            &&& after.remaining == model.remaining
            &&& after.max_jobs == model.max_jobs
            &&& after.states.len() == model.states.len()
            &&& after.states[node] == BuildNodeState::Failed
            &&& forall|i: int|
                0 <= i < model.states.len() && i != node ==> #[trigger] after.states[i] == (
                if model.states[i] == BuildNodeState::Pending && needs(model.deps, i, node) {
                    BuildNodeState::Skipped
                } else {
                    model.states[i]
                })
            &&& after.ready == model.ready.filter(without(model.deps, node))
        }),
{
    let after = with_failure(model, node);
    let states = after.states;
    let keep = |i: int| states[i] == BuildNodeState::Pending;
    assert forall|k: int| 0 <= k < model.ready.len() implies keep(#[trigger] model.ready[k])
        == without(model.deps, node)(model.ready[k]) by {
        assert(model.ready.contains(model.ready[k]));
    }
    lemma_filter_same(model.ready, keep, without(model.deps, node));
}

/// The dependents of a node come in the order of the plan, each as often as it lists the node.
pub proof fn law_dependents_are_in_order(deps: Seq<Seq<int>>, j: int)
    ensures
        forall|a: int, b: int|
            0 <= a < b < dependents_of(deps, j).len() ==> #[trigger] dependents_of(deps, j)[a]
                <= #[trigger] dependents_of(deps, j)[b],
        forall|i: int| #[trigger]
            dependents_of(deps, j).contains(i) <==> 0 <= i < deps.len() && deps[i].contains(j),
        forall|i: int|
            0 <= i < deps.len() ==> #[trigger] occurrences(dependents_of(deps, j), i)
                == occurrences(deps[i], j),
    decreases deps.len(),
{
    lemma_dependents(deps, j);
    if deps.len() > 0 {
        let front = deps.drop_last();
        law_dependents_are_in_order(front, j);
        let old = dependents_of(front, j);
        let list = dependents_of(deps, j);
        assert forall|a: int, b: int| 0 <= a < b < list.len() implies #[trigger] list[a]
            <= #[trigger] list[b] by {
            if b < old.len() {
                assert(list[a] == old[a] && list[b] == old[b]);
            } else if a < old.len() {
                assert(list[a] == old[a]);
                assert(old.contains(old[a]));
            }
        }
    }
}

/// Picks one value.
pub open spec fn equals<T>(x: T) -> spec_fn(T) -> bool {
    |y: T| y == x
}

/// Occurrences and states are counted one by one.
pub proof fn law_counts(list: Seq<int>, x: int, states: Seq<BuildNodeState>, state: BuildNodeState)
    ensures
        occurrences(list, x) == list.filter(equals(x)).len(),
        count_in(states, state) == states.filter(equals(state)).len(),
{
    lemma_occurrences_filter(list, x);
    lemma_count_filter(states, state);
}

proof fn lemma_occurrences_filter(list: Seq<int>, x: int)
    ensures
        occurrences(list, x) == list.filter(equals(x)).len(),
    decreases list.len(),
{
    reveal(Seq::filter);
    if list.len() > 0 {
        lemma_occurrences_filter(list.drop_last(), x);
    }
}

proof fn lemma_count_filter(states: Seq<BuildNodeState>, state: BuildNodeState)
    ensures
        count_in(states, state) == states.filter(equals(state)).len(),
    decreases states.len(),
{
    reveal(Seq::filter);
    if states.len() > 0 {
        lemma_count_filter(states.drop_last(), state);
    }
}

/// A build is over exactly if no node waits or runs.
pub proof fn law_over_when_all_is_settled(model: BuildModel)
    requires
        build_fits(model),
        forall|i: int|
            0 <= i < model.states.len() ==> #[trigger] model.states[i] != BuildNodeState::Pending
                && model.states[i] != BuildNodeState::Running,
    ensures
        is_over(model),
{
    lemma_count_none(model.states, BuildNodeState::Running);
    if model.ready.len() > 0 {
        assert(model.ready.contains(model.ready[0]));
    }
}

/// The place of the first of the first `k` nodes of a list that waits.
pub open spec fn first_waiting(
    list: Seq<int>,
    k: nat,
    states: Seq<BuildNodeState>,
    t: int,
) -> bool {
    &&& 0 <= t < k
    &&& states[list[t]] == BuildNodeState::Pending
    &&& forall|u: int| 0 <= u < t ==> states[#[trigger] list[u]] != BuildNodeState::Pending
}

/// Among the first dependents, none waits or the first that does is skipped first.
proof fn lemma_first_skipped(
    dependents: Seq<Seq<int>>,
    j: int,
    k: nat,
    states: Seq<BuildNodeState>,
) -> (t: int)
    requires
        0 <= j < dependents.len(),
        k <= dependents[j].len(),
        forall|t: int|
            0 <= t < dependents[j].len() ==> j < #[trigger] dependents[j][t] < dependents.len(),
    ensures
        ({
            let (after, met) = skipping(dependents, j, k, states);
            if t < k {
                first_waiting(dependents[j], k, states, t) && met.len() > 0 && met[0]
                    == dependents[j][t]
            } else {
                &&& met.len() == 0
                &&& after == states
                &&& forall|u: int|
                    0 <= u < k ==> states[#[trigger] dependents[j][u]] != BuildNodeState::Pending
            }
        }),
    decreases k,
{
    if k > 0 {
        let less = (k - 1) as nat;
        let t = lemma_first_skipped(dependents, j, less, states);
        let (before, met) = skipping(dependents, j, less, states);
        let (after, all) = skipping(dependents, j, k, states);
        let d = dependents[j][k - 1];
        if t < less {
            assert(all[0] == met[0]);
            t
        } else if states[d] == BuildNodeState::Pending {
            assert(all[0] == d);
            k - 1
        } else {
            k as int
        }
    } else {
        0
    }
}

/// When a node fails, the first that is skipped is the first of the plan that waits and lists it, if
/// there is one. Otherwise nothing is skipped.
pub proof fn law_nearest_is_skipped_first(model: BuildModel, node: int)
    requires
        build_fits(model),
        0 <= node < model.deps.len(),
        model.states[node] == BuildNodeState::Running,
    ensures
        ({
            let skipped = skipped_by(model, node);
            &&& skipped.len() > 0 ==> {
                &&& 0 <= skipped[0] < model.deps.len()
                &&& model.states[skipped[0]] == BuildNodeState::Pending
                &&& model.deps[skipped[0]].contains(node)
            }
            &&& forall|i: int|
                0 <= i < model.deps.len() && model.states[i] == BuildNodeState::Pending
                    && #[trigger] model.deps[i].contains(node) ==> skipped.len() > 0 && skipped[0]
                    <= i
        }),
{
    let dependents = all_dependents(model.deps);
    let list = dependents[node];
    let states = model.states.update(node, BuildNodeState::Failed);
    law_dependents_are_in_order(model.deps, node);
    assert(list == dependents_of(model.deps, node));
    assert forall|t: int| 0 <= t < list.len() implies node < #[trigger] list[t]
        < dependents.len() by {
        assert(list.contains(list[t]));
        let i = list[t];
        let k = model.deps[i].index_of(node);
        assert(model.deps[i][k] == node);
    }
    let t = lemma_first_skipped(dependents, node, list.len(), states);
    let skipped = skipped_by(model, node);
    assert(skipped == skipping(dependents, node, list.len(), states).1);
    assert forall|i: int|
        0 <= i < model.deps.len() && model.states[i] == BuildNodeState::Pending
            && #[trigger] model.deps[i].contains(node) implies skipped.len() > 0 && skipped[0]
        <= i by {
        assert(list.contains(i));
        let u = list.index_of(i);
        assert(list[u] == i && states[list[u]] == BuildNodeState::Pending);
    }
    if t < list.len() {
        assert(list.contains(list[t]));
    }
}

/// The states once the first `n` of some nodes are skipped.
pub open spec fn marked(
    states: Seq<BuildNodeState>,
    met: Seq<int>,
    n: int,
) -> Seq<BuildNodeState> {
    Seq::new(
        states.len(),
        |i: int|
            if met.take(n).contains(i) {
                BuildNodeState::Skipped
            } else {
                states[i]
            },
    )
}

/// Right behind a node comes the first of its dependents that still waits, if one does.
pub open spec fn goes_on(
    dependents: Seq<Seq<int>>,
    states: Seq<BuildNodeState>,
    met: Seq<int>,
    p: int,
) -> bool {
    let list = dependents[met[p]];
    forall|t: int| #[trigger]
        first_waiting(list, list.len(), marked(states, met, p + 1), t) ==> p + 1 < met.len()
            && met[p + 1] == list[t]
}

proof fn lemma_goes_on(dependents: Seq<Seq<int>>, j: int, k: nat, states: Seq<BuildNodeState>)
    requires
        0 <= j < dependents.len(),
        states.len() == dependents.len(),
        k <= dependents[j].len(),
        forall|a: int, t: int|
            0 <= a < dependents.len() && 0 <= t < dependents[a].len() ==> a
                < #[trigger] dependents[a][t] < dependents.len(),
    ensures
        ({
            let (after, met) = skipping(dependents, j, k, states);
            &&& after == marked(states, met, met.len() as int)
            &&& forall|p: int|
                0 <= p < met.len() ==> #[trigger] goes_on(dependents, states, met, p)
        }),
    decreases dependents.len() - j, k,
{
    let (after, all) = skipping(dependents, j, k, states);
    if k == 0 {
        assert(after =~= marked(states, all, 0));
    } else {
        let less = (k - 1) as nat;
        lemma_goes_on(dependents, j, less, states);
        let (before, met) = skipping(dependents, j, less, states);
        let d = dependents[j][k - 1];
        assert(j < d < dependents.len());
        if before[d] == BuildNodeState::Pending {
            let start = before.update(d, BuildNodeState::Skipped);
            let list = dependents[d];
            lemma_goes_on(dependents, d, list.len(), start);
            let first = lemma_first_skipped(dependents, d, list.len(), start);
            let (end, more) = skipping(dependents, d, list.len(), start);
            let n = met.len() as int;
            assert(all == met.push(d) + more);
            assert(all.take(n + 1) =~= met.push(d));
            assert(start =~= marked(states, all, n + 1)) by {
                assert forall|i: int| 0 <= i < states.len() implies start[i] == marked(
                    states,
                    all,
                    n + 1,
                )[i] by {
                    assert(met.take(n) =~= met);
                    if met.contains(i) {
                        let q = met.index_of(i);
                        assert(met.push(d)[q] == i);
                    }
                    if met.push(d).contains(i) && i != d {
                        let q = met.push(d).index_of(i);
                        assert(met[q] == i);
                    }
                    assert(met.push(d)[n] == d);
                }
            }
            assert forall|q: int| 0 <= q <= more.len() implies #[trigger] marked(start, more, q)
                =~= marked(states, all, n + 1 + q) by {
                lemma_marked_further(states, all, n + 1, more, q);
            }
            assert(after =~= marked(states, all, all.len() as int)) by {
                assert(marked(start, more, more.len() as int) =~= marked(
                    states,
                    all,
                    n + 1 + more.len(),
                ));
            }
            assert forall|p: int| 0 <= p < all.len() implies #[trigger] goes_on(
                dependents,
                states,
                all,
                p,
            ) by {
                if p < n {
                    assert(all[p] == met[p]);
                    assert(goes_on(dependents, states, met, p));
                    assert(all.take(p + 1) =~= met.take(p + 1));
                    assert(marked(states, all, p + 1) =~= marked(states, met, p + 1));
                    if p + 1 < n {
                        assert(all[p + 1] == met[p + 1]);
                    }
                } else if p == n {
                    assert(all[p] == d);
                    assert forall|t: int| #[trigger]
                        first_waiting(
                            list,
                            list.len(),
                            marked(states, all, p + 1),
                            t,
                        ) implies p + 1 < all.len() && all[p + 1] == list[t] by {
                        assert(first_waiting(list, list.len(), start, t));
                        if first < list.len() {
                            assert(first_waiting(list, list.len(), start, first));
                            assert(t == first);
                            assert(all[p + 1] == more[0]);
                        }
                    }
                } else {
                    let q = p - n - 1;
                    assert(all[p] == more[q]);
                    assert(goes_on(dependents, start, more, q));
                    assert(marked(start, more, q + 1) =~= marked(states, all, p + 1));
                    if q + 1 < more.len() {
                        assert(all[p + 1] == more[q + 1]);
                    }
                }
            }
        }
    }
}

proof fn lemma_marked_further(
    states: Seq<BuildNodeState>,
    all: Seq<int>,
    m: int,
    more: Seq<int>,
    q: int,
)
    requires
        0 <= m <= all.len(),
        0 <= q <= more.len(),
        all == all.take(m) + more,
    ensures
        marked(marked(states, all, m), more, q) == marked(states, all, m + q),
{
    let (left, right) = (marked(marked(states, all, m), more, q), marked(states, all, m + q));
    assert(all.take(m + q) =~= all.take(m) + more.take(q));
    assert forall|i: int| 0 <= i < states.len() implies left[i] == right[i] by {
        if all.take(m + q).contains(i) {
            let p = all.take(m + q).index_of(i);
            if p < m {
                assert(all.take(m)[p] == i);
            } else {
                assert(more.take(q)[p - m] == i);
            }
        }
        if all.take(m).contains(i) {
            let p = all.take(m).index_of(i);
            assert(all.take(m + q)[p] == i);
        }
        if more.take(q).contains(i) {
            let p = more.take(q).index_of(i);
            assert(all.take(m + q)[m + p] == i);
        }
    }
    assert(left =~= right);
}

/// Right behind a node that is skipped comes, before anything else, the first of the plan that lists
/// it and was not skipped yet, if there is one.
pub proof fn law_skipping_goes_deep(model: BuildModel, node: int, p: int, i: int)
    requires
        build_fits(model),
        0 <= node < model.deps.len(),
        model.states[node] == BuildNodeState::Running,
        0 <= p < skipped_by(model, node).len(),
        0 <= i < model.deps.len(),
        model.states[i] == BuildNodeState::Pending,
        model.deps[i].contains(skipped_by(model, node)[p]),
        !skipped_by(model, node).take(p + 1).contains(i),
        forall|h: int|
            0 <= h < i && model.states[h] == BuildNodeState::Pending
                && #[trigger] model.deps[h].contains(skipped_by(model, node)[p])
                ==> skipped_by(model, node).take(p + 1).contains(h),
    ensures
        p + 1 < skipped_by(model, node).len(),
        skipped_by(model, node)[p + 1] == i,
{
    let deps = model.deps;
    let dependents = all_dependents(deps);
    let states = model.states.update(node, BuildNodeState::Failed);
    let skipped = skipped_by(model, node);
    let d = skipped[p];
    assert forall|a: int, t: int|
        0 <= a < dependents.len() && 0 <= t < dependents[a].len() implies a
        < #[trigger] dependents[a][t] < dependents.len() by {
        law_dependents_are_in_order(deps, a);
        assert(dependents[a] == dependents_of(deps, a));
        assert(dependents_of(deps, a).contains(dependents[a][t]));
        let e = dependents[a][t];
        let k = deps[e].index_of(a);
        assert(deps[e][k] == a);
    }
    lemma_goes_on(dependents, node, dependents[node].len(), states);
    assert(goes_on(dependents, states, skipped, p));
    let k = deps[i].index_of(d);
    assert(deps[i][k] == d);
    assert(0 <= d < i);
    let list = dependents[d];
    let now = marked(states, skipped, p + 1);
    law_dependents_are_in_order(deps, d);
    assert(list == dependents_of(deps, d));
    assert(list.contains(i));
    let t = lemma_first_occurrence(list, i);
    assert(now[list[t]] == BuildNodeState::Pending);
    assert forall|u: int| 0 <= u < t implies now[#[trigger] list[u]]
        != BuildNodeState::Pending by {
        let h = list[u];
        assert(list.contains(h));
        assert(h <= i && h != i);
        assert(deps[h].contains(d));
    }
    assert(first_waiting(list, list.len(), now, t));
}

proof fn lemma_first_occurrence(list: Seq<int>, x: int) -> (t: int)
    requires
        list.contains(x),
    ensures
        0 <= t < list.len(),
        list[t] == x,
        forall|u: int| 0 <= u < t ==> #[trigger] list[u] != x,
    decreases list.len(),
{
    let front = list.drop_last();
    if front.contains(x) {
        let t = lemma_first_occurrence(front, x);
        assert forall|u: int| 0 <= u < t implies #[trigger] list[u] != x by {
            assert(front[u] == list[u]);
        }
        t
    } else {
        assert forall|u: int| 0 <= u < list.len() - 1 implies #[trigger] list[u] != x by {
            assert(front[u] == list[u]);
        }
        let p = list.index_of(x);
        assert(p == list.len() - 1);
        list.len() - 1
    }
}

} // verus!
