//! What holds of every build, from its start to its end.

use vstd::prelude::*;

use crate::graph::{all_dependents, are_earlier, dependents_of, occurrences, BuildNodeState};
use crate::schedule::{
    ascending, build_fits, count_in, free_jobs, fresh, has_started, is_blocked, is_over, needs,
    next_started, node_fits, skipped_by, skipping, started, states_after_failure, unsatisfied,
    with_failure, with_started, with_success, BuildModel,
};

verus! {

/// What `ascending` lists, and that it lists it in order.
pub proof fn lemma_ascending(n: nat, pick: spec_fn(int) -> bool)
    ensures
        forall|x: int| #[trigger] ascending(n, pick).contains(x) <==> 0 <= x < n && pick(x),
        forall|a: int, b: int|
            0 <= a < b < ascending(n, pick).len() ==> #[trigger] ascending(n, pick)[a]
                < #[trigger] ascending(n, pick)[b],
        ascending(n, pick).no_duplicates(),
    decreases n,
{
    if n > 0 {
        let m = (n - 1) as nat;
        lemma_ascending(m, pick);
        let less = ascending(m, pick);
        let list = ascending(n, pick);
        assert forall|a: int| 0 <= a < less.len() implies #[trigger] less[a] < m by {
            assert(less.contains(less[a]));
        }
        assert forall|x: int| #[trigger] list.contains(x) <==> 0 <= x < n && pick(x) by {
            if list.contains(x) {
                let a = list.index_of(x);
                if a < less.len() {
                    assert(less[a] == x);
                    assert(less.contains(x));
                }
            }
            if 0 <= x < n && pick(x) {
                if x == m {
                    assert(list[list.len() - 1] == x);
                } else {
                    assert(less.contains(x));
                    let a = less.index_of(x);
                    assert(list[a] == x);
                }
            }
        }
    }
}

/// Only the choice among the numbers below `n` matters.
pub proof fn lemma_ascending_same(n: nat, pick: spec_fn(int) -> bool, other: spec_fn(int) -> bool)
    requires
        forall|x: int| 0 <= x < n ==> #[trigger] pick(x) == other(x),
    ensures
        ascending(n, pick) == ascending(n, other),
    decreases n,
{
    if n > 0 {
        assert(pick(n - 1) == other(n - 1));
        lemma_ascending_same((n - 1) as nat, pick, other);
    }
}

/// What occurs is contained.
pub proof fn lemma_occurrences(list: Seq<int>, x: int)
    ensures
        occurrences(list, x) > 0 <==> list.contains(x),
    decreases list.len(),
{
    if list.len() > 0 {
        let front = list.drop_last();
        lemma_occurrences(front, x);
        if list.last() == x {
            assert(list[list.len() - 1] == x);
        }
        if front.contains(x) {
            assert(list[front.index_of(x)] == x);
        }
        if list.contains(x) && list.last() != x {
            assert(front[list.index_of(x)] == x);
        }
    }
}

/// Occurrences in a list that is made of two.
pub proof fn lemma_occurrences_repeated(front: Seq<int>, count: nat, y: int, x: int)
    ensures
        occurrences(front + Seq::new(count, |k: int| y), x) == occurrences(front, x) + if x == y {
            count
        } else {
            0
        },
    decreases count,
{
    let list = front + Seq::new(count, |k: int| y);
    if count == 0 {
        assert(list =~= front);
    } else {
        let less = (count - 1) as nat;
        lemma_occurrences_repeated(front, less, y, x);
        assert(list.drop_last() =~= front + Seq::new(less, |k: int| y));
    }
}

/// A node is listed among the dependents of `j` as often as it lists `j`.
pub proof fn lemma_dependents(deps: Seq<Seq<int>>, j: int)
    ensures
        forall|i: int|
            0 <= i < deps.len() ==> #[trigger] occurrences(dependents_of(deps, j), i)
                == occurrences(deps[i], j),
        forall|i: int| #[trigger]
            dependents_of(deps, j).contains(i) <==> 0 <= i < deps.len() && deps[i].contains(j),
    decreases deps.len(),
{
    if deps.len() > 0 {
        let front = deps.drop_last();
        let last = deps.len() - 1;
        lemma_dependents(front, j);
        assert forall|i: int| 0 <= i < deps.len() implies #[trigger] occurrences(
            dependents_of(deps, j),
            i,
        ) == occurrences(deps[i], j) by {
            lemma_occurrences_repeated(
                dependents_of(front, j),
                occurrences(deps.last(), j),
                last,
                i,
            );
            assert(dependents_of(deps, j) =~= dependents_of(front, j) + Seq::new(
                occurrences(deps.last(), j),
                |k: int| last,
            ));
            if i == last {
                lemma_occurrences(dependents_of(front, j), i);
                assert(!dependents_of(front, j).contains(i));
            } else {
                assert(front[i] == deps[i]);
            }
        }
        assert forall|i: int| #[trigger]
            dependents_of(deps, j).contains(i) <==> 0 <= i < deps.len() && deps[i].contains(j) by {
            lemma_occurrences(dependents_of(deps, j), i);
            if 0 <= i < deps.len() {
                lemma_occurrences(deps[i], j);
            } else if dependents_of(deps, j).contains(i) {
                let p = dependents_of(deps, j).index_of(i);
                if p < dependents_of(front, j).len() {
                    assert(dependents_of(front, j)[p] == i);
                    assert(dependents_of(front, j).contains(i));
                }
            }
        }
    }
}

/// Counting after one node changed its state.
pub proof fn lemma_count_update(
    states: Seq<BuildNodeState>,
    i: int,
    to: BuildNodeState,
    state: BuildNodeState,
)
    requires
        0 <= i < states.len(),
    ensures
        count_in(states.update(i, to), state) == count_in(states, state) - (if states[i] == state {
            1int
        } else {
            0
        }) + (if to == state {
            1int
        } else {
            0
        }),
    decreases states.len(),
{
    let changed = states.update(i, to);
    if i == states.len() - 1 {
        assert(changed.drop_last() =~= states.drop_last());
    } else {
        assert(changed.drop_last() =~= states.drop_last().update(i, to));
        lemma_count_update(states.drop_last(), i, to, state);
    }
}

/// A state that no node is in is counted zero times.
pub proof fn lemma_count_none(states: Seq<BuildNodeState>, state: BuildNodeState)
    requires
        forall|i: int| 0 <= i < states.len() ==> #[trigger] states[i] != state,
    ensures
        count_in(states, state) == 0,
    decreases states.len(),
{
    if states.len() > 0 {
        assert(states[states.len() - 1] != state);
        lemma_count_none(states.drop_last(), state);
    }
}

/// A node in a state is counted.
pub proof fn lemma_count_some(states: Seq<BuildNodeState>, state: BuildNodeState, i: int)
    requires
        0 <= i < states.len(),
        states[i] == state,
    ensures
        count_in(states, state) > 0,
    decreases states.len(),
{
    if i < states.len() - 1 {
        lemma_count_some(states.drop_last(), state, i);
    }
}

/// Only the states of the listed nodes matter to what is unsatisfied.
pub proof fn lemma_unsatisfied_same(
    list: Seq<int>,
    states: Seq<BuildNodeState>,
    other: Seq<BuildNodeState>,
)
    requires
        forall|k: int|
            0 <= k < list.len() ==> (states[#[trigger] list[k]] == BuildNodeState::Succeeded) == (
            other[list[k]] == BuildNodeState::Succeeded),
    ensures
        unsatisfied(list, states) == unsatisfied(list, other),
    decreases list.len(),
{
    if list.len() > 0 {
        let front = list.drop_last();
        assert forall|k: int| 0 <= k < front.len() implies (states[#[trigger] front[k]]
            == BuildNodeState::Succeeded) == (other[front[k]] == BuildNodeState::Succeeded) by {
            assert(front[k] == list[k]);
        }
        assert(list[list.len() - 1] == list.last());
        lemma_unsatisfied_same(front, states, other);
    }
}

/// When a node succeeds, its occurrences are no longer unsatisfied.
pub proof fn lemma_unsatisfied_success(list: Seq<int>, states: Seq<BuildNodeState>, node: int)
    requires
        0 <= node < states.len(),
        states[node] != BuildNodeState::Succeeded,
        forall|k: int| 0 <= k < list.len() ==> 0 <= #[trigger] list[k] < states.len(),
    ensures
        unsatisfied(list, states.update(node, BuildNodeState::Succeeded)) == unsatisfied(
            list,
            states,
        ) - occurrences(list, node),
    decreases list.len(),
{
    if list.len() > 0 {
        let front = list.drop_last();
        assert forall|k: int| 0 <= k < front.len() implies 0 <= #[trigger] front[k]
            < states.len() by {
            assert(front[k] == list[k]);
        }
        assert(list[list.len() - 1] == list.last());
        lemma_unsatisfied_success(front, states, node);
    }
}

/// Where nothing has succeeded, everything listed is unsatisfied.
pub proof fn lemma_unsatisfied_all(list: Seq<int>, states: Seq<BuildNodeState>)
    requires
        forall|k: int|
            0 <= k < list.len() ==> states[#[trigger] list[k]] != BuildNodeState::Succeeded,
    ensures
        unsatisfied(list, states) == list.len(),
    decreases list.len(),
{
    if list.len() > 0 {
        let front = list.drop_last();
        assert forall|k: int| 0 <= k < front.len() implies states[#[trigger] front[k]]
            != BuildNodeState::Succeeded by {
            assert(front[k] == list[k]);
        }
        assert(list[list.len() - 1] == list.last());
        lemma_unsatisfied_all(front, states);
    }
}

/// Nothing is unsatisfied exactly if everything listed has succeeded.
pub proof fn lemma_unsatisfied_zero(list: Seq<int>, states: Seq<BuildNodeState>)
    ensures
        unsatisfied(list, states) == 0 <==> (forall|k: int|
            0 <= k < list.len() ==> states[#[trigger] list[k]] == BuildNodeState::Succeeded),
    decreases list.len(),
{
    if list.len() > 0 {
        let front = list.drop_last();
        lemma_unsatisfied_zero(front, states);
        if unsatisfied(list, states) == 0 {
            assert forall|k: int| 0 <= k < list.len() implies states[#[trigger] list[k]]
                == BuildNodeState::Succeeded by {
                if k < front.len() {
                    assert(front[k] == list[k]);
                }
            }
        } else if forall|k: int|
            0 <= k < list.len() ==> states[#[trigger] list[k]] == BuildNodeState::Succeeded {
            assert(states[list[list.len() - 1]] == BuildNodeState::Succeeded);
            assert forall|k: int| 0 <= k < front.len() implies states[#[trigger] front[k]]
                == BuildNodeState::Succeeded by {
                assert(front[k] == list[k]);
            }
        }
    }
}

/// A fresh build fits.
pub proof fn law_fresh_fits(deps: Seq<Seq<int>>, max_jobs: int)
    requires
        are_earlier(deps),
        max_jobs > 0,
    ensures
        build_fits(fresh(deps, max_jobs)),
{
    let model = fresh(deps, max_jobs);
    lemma_ascending(deps.len(), |i: int| deps[i].len() == 0);
    lemma_count_none(model.states, BuildNodeState::Running);
    assert forall|i: int| 0 <= i < deps.len() implies #[trigger] node_fits(model, i) by {
        assert forall|k: int| 0 <= k < deps[i].len() implies model.states[#[trigger] deps[i][k]]
            == BuildNodeState::Pending by {}
        lemma_unsatisfied_all(deps[i], model.states);
    }
}

/// Starting one more node keeps a build fitting.
proof fn lemma_start_one(model: BuildModel, k: int)
    requires
        build_fits(model),
        build_fits(started(model, k)),
        0 <= k < free_jobs(model),
    ensures
        build_fits(started(model, k + 1)),
        started(model, k + 1).states == started(model, k).states.update(
            model.ready[k],
            BuildNodeState::Running,
        ),
{
    let one = started(model, k);
    let two = started(model, k + 1);
    let node = model.ready[k];
    assert(one.ready[0] == node);
    assert(one.ready.contains(node));
    assert(model.ready.take(k + 1) =~= model.ready.take(k).push(node));
    assert forall|i: int| #[trigger]
        model.ready.take(k + 1).contains(i) <==> model.ready.take(k).contains(i) || i == node by {
        if model.ready.take(k).contains(i) {
            let p = model.ready.take(k).index_of(i);
            assert(model.ready.take(k + 1)[p] == i);
        }
        if i == node {
            assert(model.ready.take(k + 1)[k] == i);
        }
    }
    assert(two.states =~= one.states.update(node, BuildNodeState::Running));
    lemma_count_update(one.states, node, BuildNodeState::Running, BuildNodeState::Running);
    assert forall|i: int| 0 <= i < model.deps.len() implies #[trigger] node_fits(two, i) by {
        assert(node_fits(one, i));
        let list = model.deps[i];
        assert forall|t: int| 0 <= t < list.len() implies (one.states[#[trigger] list[t]]
            == BuildNodeState::Succeeded) == (two.states[list[t]] == BuildNodeState::Succeeded) by {
            assert(0 <= model.deps[i][t] < i);
        }
        lemma_unsatisfied_same(list, one.states, two.states);
        if i == node {
            lemma_unsatisfied_zero(list, one.states);
        }
        if two.states[i] == BuildNodeState::Skipped {
            let t = choose|t: int|
                0 <= t < list.len() && is_blocked(one.states[#[trigger] list[t]]);
            assert(is_blocked(two.states[list[t]]));
        }
        if two.states[i] == BuildNodeState::Pending {
            assert forall|t: int| 0 <= t < list.len() implies !is_blocked(
                two.states[#[trigger] list[t]],
            ) by {
                assert(!is_blocked(one.states[list[t]]));
            }
        }
    }
    assert(two.ready =~= one.ready.skip(1));
    assert forall|i: int| #[trigger]
        two.ready.contains(i) <==> 0 <= i < model.deps.len() && two.states[i]
            == BuildNodeState::Pending && two.remaining[i] == 0 by {
        if two.ready.contains(i) {
            let p = two.ready.index_of(i);
            assert(one.ready[p + 1] == i);
            assert(one.ready.contains(i));
        }
        if 0 <= i < model.deps.len() && two.states[i] == BuildNodeState::Pending
            && two.remaining[i] == 0 {
            assert(one.ready.contains(i));
            let p = one.ready.index_of(i);
            assert(p > 0);
            assert(two.ready[p - 1] == i);
        }
    }
}

/// Starting `k` nodes keeps a build fitting.
pub proof fn lemma_started_fits(model: BuildModel, k: int)
    requires
        build_fits(model),
        0 <= k <= free_jobs(model),
    ensures
        build_fits(started(model, k)),
        k > 0 ==> started(model, k).states == started(model, k - 1).states.update(
            model.ready[k - 1],
            BuildNodeState::Running,
        ),
    decreases k,
{
    if k == 0 {
        assert(model.ready.take(0) =~= Seq::empty());
        assert(started(model, 0).states =~= model.states);
        assert(started(model, 0).ready =~= model.ready);
    } else {
        lemma_started_fits(model, k - 1);
        lemma_start_one(model, k - 1);
    }
}

/// Starting what is ready keeps a build fitting, and nothing is started before all of its
/// dependencies are built.
pub proof fn law_started_fits(model: BuildModel)
    requires
        build_fits(model),
    ensures
        build_fits(with_started(model)),
        forall|i: int, k: int|
            next_started(model).contains(i) && 0 <= k < model.deps[i].len() ==> model.states[
                #[trigger] model.deps[i][k]
            ] == BuildNodeState::Succeeded,
{
    lemma_started_fits(model, free_jobs(model));
    assert forall|i: int, k: int|
        next_started(model).contains(i) && 0 <= k < model.deps[i].len() implies model.states[
        #[trigger] model.deps[i][k]] == BuildNodeState::Succeeded by {
        let p = next_started(model).index_of(i);
        assert(model.ready[p] == i);
        assert(model.ready.contains(i));
        assert(node_fits(model, i));
        lemma_unsatisfied_zero(model.deps[i], model.states);
    }
}

/// A running node succeeds: the build still fits.
pub proof fn law_success_fits(model: BuildModel, node: int)
    requires
        build_fits(model),
        0 <= node < model.deps.len(),
        model.states[node] == BuildNodeState::Running,
    ensures
        build_fits(with_success(model, node)),
{
    let after = with_success(model, node);
    let n = model.deps.len();
    assert(node_fits(model, node));
    lemma_count_update(model.states, node, BuildNodeState::Succeeded, BuildNodeState::Running);
    lemma_count_some(model.states, BuildNodeState::Running, node);
    assert forall|i: int| 0 <= i < n implies #[trigger] node_fits(after, i) by {
        assert(node_fits(model, i));
        let list = model.deps[i];
        assert forall|t: int| 0 <= t < list.len() implies 0 <= #[trigger] list[t] < n by {
            assert(0 <= model.deps[i][t] < i);
        }
        lemma_unsatisfied_success(list, model.states, node);
        if after.states[i] == BuildNodeState::Skipped {
            let t = choose|t: int|
                0 <= t < list.len() && is_blocked(model.states[#[trigger] list[t]]);
            assert(is_blocked(after.states[list[t]]));
        }
        if after.states[i] == BuildNodeState::Pending {
            assert forall|t: int| 0 <= t < list.len() implies !is_blocked(
                after.states[#[trigger] list[t]],
            ) by {
                assert(!is_blocked(model.states[list[t]]));
            }
        }
        if has_started(after.states[i]) {
            assert forall|t: int| 0 <= t < list.len() implies after.states[#[trigger] list[t]]
                == BuildNodeState::Succeeded by {
                assert(model.states[list[t]] == BuildNodeState::Succeeded);
            }
        }
    }
    let pick = |i: int|
        after.states[i] == BuildNodeState::Pending && model.deps[i].contains(node)
            && after.remaining[i] == 0;
    let new = ascending(n, pick);
    lemma_ascending(n, pick);
    assert(after.ready =~= model.ready + new);
    assert forall|i: int| model.ready.contains(i) implies !#[trigger] new.contains(i) by {
        if new.contains(i) {
            assert(node_fits(model, i));
            lemma_unsatisfied_zero(model.deps[i], model.states);
            let t = model.deps[i].index_of(node);
            assert(model.states[model.deps[i][t]] == BuildNodeState::Succeeded);
        }
    }
    assert(after.ready.no_duplicates()) by {
        assert forall|a: int, b: int| 0 <= a < b < after.ready.len() implies after.ready[a]
            != after.ready[b] by {
            if a < model.ready.len() && b >= model.ready.len() {
                assert(model.ready.contains(model.ready[a]));
                assert(new.contains(new[b - model.ready.len()]));
            }
        }
    }
    assert forall|i: int| #[trigger]
        after.ready.contains(i) <==> 0 <= i < n && after.states[i] == BuildNodeState::Pending
            && after.remaining[i] == 0 by {
        if 0 <= i < n {
            assert(node_fits(model, i));
            assert(node_fits(after, i));
            lemma_occurrences(model.deps[i], node);
        }
        if after.ready.contains(i) {
            let p = after.ready.index_of(i);
            if p < model.ready.len() {
                assert(model.ready[p] == i);
                assert(model.ready.contains(i));
                lemma_unsatisfied_zero(model.deps[i], model.states);
                if model.deps[i].contains(node) {
                    let t = model.deps[i].index_of(node);
                    assert(model.states[model.deps[i][t]] == BuildNodeState::Succeeded);
                }
            } else {
                assert(new[p - model.ready.len()] == i);
                assert(new.contains(i));
            }
        }
        if 0 <= i < n && after.states[i] == BuildNodeState::Pending && after.remaining[i] == 0 {
            if model.deps[i].contains(node) {
                assert(new.contains(i));
                let p = new.index_of(i);
                assert(after.ready[model.ready.len() + p] == i);
            } else {
                assert(model.ready.contains(i));
                let p = model.ready.index_of(i);
                assert(after.ready[p] == i);
            }
        }
    }
}

/// What was started depends only on what was built, however indirectly.
pub proof fn lemma_started_needs_built(model: BuildModel, i: int, j: int)
    requires
        build_fits(model),
        0 <= i < model.deps.len(),
        has_started(model.states[i]),
        needs(model.deps, i, j),
    ensures
        model.states[j] == BuildNodeState::Succeeded,
    decreases i,
{
    assert(node_fits(model, i));
    let k = choose|k: int|
        0 <= k < model.deps[i].len() && (#[trigger] model.deps[i][k] == j || (0 <= model.deps[i][k]
            < i && needs(model.deps, model.deps[i][k], j)));
    assert(model.states[model.deps[i][k]] == BuildNodeState::Succeeded);
    if model.deps[i][k] != j {
        lemma_started_needs_built(model, model.deps[i][k], j);
    }
}

/// `after` comes from `before` by skipping nodes that waited and need `j`, each together with its
/// dependents; `met` lists those nodes, each once.
pub open spec fn skipped_from(
    deps: Seq<Seq<int>>,
    j: int,
    before: Seq<BuildNodeState>,
    after: Seq<BuildNodeState>,
    met: Seq<int>,
) -> bool {
    &&& after.len() == before.len()
    &&& forall|x: int|
        0 <= x < before.len() && before[x] != BuildNodeState::Pending ==> #[trigger] after[x]
            == before[x]
    &&& forall|x: int|
        0 <= x < before.len() && before[x] == BuildNodeState::Pending && #[trigger] after[x]
            != BuildNodeState::Pending ==> {
            &&& after[x] == BuildNodeState::Skipped
            &&& needs(deps, x, j)
            &&& forall|y: int|
                0 <= y < deps.len() && (#[trigger] deps[y]).contains(x) ==> after[y]
                    != BuildNodeState::Pending
        }
    &&& met.no_duplicates()
    &&& forall|x: int| #[trigger]
        met.contains(x) <==> 0 <= x < before.len() && before[x] == BuildNodeState::Pending
            && after[x] != BuildNodeState::Pending
}

/// What needs a node that lists `j` needs `j`.
proof fn lemma_needs_through(deps: Seq<Seq<int>>, x: int, d: int, j: int)
    requires
        are_earlier(deps),
        0 <= x < deps.len(),
        0 <= d < deps.len(),
        needs(deps, x, d),
        deps[d].contains(j),
    ensures
        needs(deps, x, j),
    decreases x,
{
    let k = choose|k: int|
        0 <= k < deps[x].len() && (#[trigger] deps[x][k] == d || (0 <= deps[x][k] < x && needs(
            deps,
            deps[x][k],
            d,
        )));
    assert(0 <= deps[x][k] < x);
    if deps[x][k] == d {
        let t = deps[d].index_of(j);
        assert(deps[d][t] == j);
        assert(needs(deps, d, j));
    } else {
        lemma_needs_through(deps, deps[x][k], d, j);
    }
}

/// Skipping the dependents of a node does what `skipped_from` says, and leaves none of them
/// waiting.
pub proof fn lemma_skipping(
    deps: Seq<Seq<int>>,
    j: int,
    k: nat,
    states: Seq<BuildNodeState>,
)
    requires
        are_earlier(deps),
        states.len() == deps.len(),
        0 <= j < deps.len(),
        k <= all_dependents(deps)[j].len(),
    ensures
        ({
            let (after, met) = skipping(all_dependents(deps), j, k, states);
            &&& skipped_from(deps, j, states, after, met)
            &&& forall|t: int|
                0 <= t < k ==> after[#[trigger] all_dependents(deps)[j][t]]
                    != BuildNodeState::Pending
        }),
    decreases deps.len() - j, k,
{
    let dependents = all_dependents(deps);
    lemma_dependents(deps, j);
    if k > 0 {
        let less = (k - 1) as nat;
        lemma_skipping(deps, j, less, states);
        let (before, met) = skipping(dependents, j, less, states);
        let d = dependents[j][k - 1];
        assert(dependents_of(deps, j).contains(d));
        let place = deps[d].index_of(j);
        assert(deps[d][place] == j);
        assert(j < d < deps.len());
        assert(needs(deps, d, j));
        if before[d] == BuildNodeState::Pending {
            let marked = before.update(d, BuildNodeState::Skipped);
            lemma_dependents(deps, d);
            lemma_skipping(deps, d, dependents[d].len(), marked);
            let (after, more) = skipping(dependents, d, dependents[d].len(), marked);
            let all_met = met.push(d) + more;
            assert forall|x: int|
                0 <= x < states.len() && states[x] == BuildNodeState::Pending && #[trigger] after[x]
                    != BuildNodeState::Pending implies {
                &&& after[x] == BuildNodeState::Skipped
                &&& needs(deps, x, j)
                &&& forall|y: int|
                    0 <= y < deps.len() && (#[trigger] deps[y]).contains(x) ==> after[y]
                        != BuildNodeState::Pending
            } by {
                if x == d {
                    assert(marked[d] != BuildNodeState::Pending);
                    assert forall|y: int|
                        0 <= y < deps.len() && (#[trigger] deps[y]).contains(x) implies after[y]
                        != BuildNodeState::Pending by {
                        assert(dependents_of(deps, d).contains(y));
                        let t = dependents_of(deps, d).index_of(y);
                        assert(after[dependents[d][t]] != BuildNodeState::Pending);
                    }
                } else if before[x] != BuildNodeState::Pending {
                    assert(marked[x] == before[x]);
                    assert(after[x] == marked[x]);
                    assert forall|y: int|
                        0 <= y < deps.len() && (#[trigger] deps[y]).contains(x) implies after[y]
                        != BuildNodeState::Pending by {
                        assert(before[y] != BuildNodeState::Pending);
                        assert(marked[y] != BuildNodeState::Pending);
                    }
                } else {
                    assert(marked[x] == BuildNodeState::Pending);
                    lemma_needs_through(deps, x, d, j);
                }
            }
            assert forall|x: int|
                0 <= x < states.len() && states[x]
                    != BuildNodeState::Pending implies #[trigger] after[x] == states[x] by {
                assert(before[x] == states[x]);
                assert(marked[x] == before[x]);
            }
            assert forall|t: int| 0 <= t < k implies after[#[trigger] dependents[j][t]]
                != BuildNodeState::Pending by {
                let y = dependents[j][t];
                assert(dependents_of(deps, j).contains(y));
                if t < less {
                    assert(before[y] != BuildNodeState::Pending);
                }
                assert(marked[y] != BuildNodeState::Pending);
            }
            assert forall|x: int| #[trigger]
                all_met.contains(x) <==> 0 <= x < states.len() && states[x]
                    == BuildNodeState::Pending && after[x] != BuildNodeState::Pending by {
                if all_met.contains(x) {
                    let p = all_met.index_of(x);
                    if p < met.len() {
                        assert(met[p] == x);
                        assert(met.contains(x));
                        assert(before[x] != BuildNodeState::Pending);
                        assert(marked[x] != BuildNodeState::Pending);
                    } else if p == met.len() {
                        assert(x == d);
                        assert(marked[d] == BuildNodeState::Skipped);
                        if states[d] != BuildNodeState::Pending {
                            assert(before[d] == states[d]);
                        }
                    } else {
                        assert(more[p - met.len() - 1] == x);
                        assert(more.contains(x));
                        assert(before[x] == BuildNodeState::Pending);
                        if states[x] != BuildNodeState::Pending {
                            assert(before[x] == states[x]);
                        }
                    }
                }
                if 0 <= x < states.len() && states[x] == BuildNodeState::Pending && after[x]
                    != BuildNodeState::Pending {
                    if before[x] != BuildNodeState::Pending {
                        assert(met.contains(x));
                        let p = met.index_of(x);
                        assert(all_met[p] == x);
                    } else if x == d {
                        assert(all_met[met.len() as int] == x);
                    } else {
                        assert(more.contains(x));
                        let p = more.index_of(x);
                        assert(all_met[met.len() + 1 + p] == x);
                    }
                }
            }
            assert(all_met.no_duplicates()) by {
                assert forall|a: int, b: int| 0 <= a < b < all_met.len() implies all_met[a]
                    != all_met[b] by {
                    if a < met.len() {
                        assert(met.contains(met[a]));
                    }
                    if b > met.len() {
                        assert(more.contains(more[b - met.len() - 1]));
                    }
                }
            }
        } else {
            assert forall|t: int| 0 <= t < k implies before[#[trigger] dependents[j][t]]
                != BuildNodeState::Pending by {}
        }
    }
}

/// When a running node fails, walking its dependents skips exactly what waits and needs it, each
/// node once.
pub proof fn law_failure_skips_what_needs_it(model: BuildModel, node: int)
    requires
        build_fits(model),
        0 <= node < model.deps.len(),
        model.states[node] == BuildNodeState::Running,
    ensures
        skipping(
            all_dependents(model.deps),
            node,
            all_dependents(model.deps)[node].len(),
            model.states.update(node, BuildNodeState::Failed),
        ).0 == states_after_failure(model, node),
        skipped_by(model, node).no_duplicates(),
        forall|i: int| #[trigger]
            skipped_by(model, node).contains(i) <==> 0 <= i < model.deps.len() && model.states[i]
                == BuildNodeState::Pending && needs(model.deps, i, node),
{
    let deps = model.deps;
    let dependents = all_dependents(deps);
    let marked = model.states.update(node, BuildNodeState::Failed);
    let (after, met) = skipping(dependents, node, dependents[node].len(), marked);
    lemma_skipping(deps, node, dependents[node].len(), marked);
    lemma_dependents(deps, node);
    assert forall|i: int|
        0 <= i < deps.len() && model.states[i] == BuildNodeState::Pending implies (after[i]
        != BuildNodeState::Pending <==> needs(deps, i, node)) by {
        if needs(deps, i, node) {
            lemma_needing_is_skipped(model, node, after, i);
        }
        assert(marked[i] == BuildNodeState::Pending);
    }
    assert forall|i: int| 0 <= i < deps.len() implies after[i] == states_after_failure(
        model,
        node,
    )[i] by {
        if i == node {
            assert(marked[i] == BuildNodeState::Failed);
        } else {
            assert(marked[i] == model.states[i]);
        }
    }
    assert(after =~= states_after_failure(model, node));
}

proof fn lemma_needing_is_skipped(
    model: BuildModel,
    node: int,
    after: Seq<BuildNodeState>,
    i: int,
)
    requires
        build_fits(model),
        0 <= node < model.deps.len(),
        model.states[node] == BuildNodeState::Running,
        exists|met: Seq<int>|
            skipped_from(
                model.deps,
                node,
                model.states.update(node, BuildNodeState::Failed),
                after,
                met,
            ),
        forall|t: int|
            0 <= t < all_dependents(model.deps)[node].len() ==> after[
                #[trigger] all_dependents(model.deps)[node][t]
            ] != BuildNodeState::Pending,
        0 <= i < model.deps.len(),
        model.states[i] == BuildNodeState::Pending,
        needs(model.deps, i, node),
    ensures
        after[i] != BuildNodeState::Pending,
    decreases i,
{
    let deps = model.deps;
    let marked = model.states.update(node, BuildNodeState::Failed);
    let k = choose|k: int|
        0 <= k < deps[i].len() && (#[trigger] deps[i][k] == node || (0 <= deps[i][k] < i && needs(
            deps,
            deps[i][k],
            node,
        )));
    let d = deps[i][k];
    assert(0 <= d < i);
    assert(deps[i].contains(d));
    assert(node_fits(model, i));
    if d == node {
        lemma_dependents(deps, node);
        assert(dependents_of(deps, node).contains(i));
        let t = dependents_of(deps, node).index_of(i);
        assert(after[all_dependents(deps)[node][t]] != BuildNodeState::Pending);
    } else {
        assert(!is_blocked(model.states[deps[i][k]]));
        if has_started(model.states[d]) {
            lemma_started_needs_built(model, d, node);
        }
        assert(model.states[d] == BuildNodeState::Pending);
        lemma_needing_is_skipped(model, node, after, d);
        assert(marked[d] == BuildNodeState::Pending);
        assert(after[d] != BuildNodeState::Pending);
    }
}

/// A running node fails: the build still fits.
pub proof fn law_failure_fits(model: BuildModel, node: int)
    requires
        build_fits(model),
        0 <= node < model.deps.len(),
        model.states[node] == BuildNodeState::Running,
    ensures
        build_fits(with_failure(model, node)),
{
    let after = with_failure(model, node);
    let deps = model.deps;
    let n = deps.len();
    assert forall|i: int| 0 <= i < n implies #[trigger] node_fits(after, i) by {
        assert(node_fits(model, i));
        let list = deps[i];
        assert forall|t: int| 0 <= t < list.len() implies 0 <= #[trigger] list[t] < i by {
            assert(0 <= deps[i][t] < i);
        }
        assert forall|t: int| 0 <= t < list.len() implies (model.states[#[trigger] list[t]]
            == BuildNodeState::Succeeded) == (after.states[list[t]]
            == BuildNodeState::Succeeded) by {}
        lemma_unsatisfied_same(list, model.states, after.states);
        if has_started(after.states[i]) {
            assert forall|t: int| 0 <= t < list.len() implies after.states[#[trigger] list[t]]
                == BuildNodeState::Succeeded by {
                assert(model.states[list[t]] == BuildNodeState::Succeeded);
            }
        }
        if after.states[i] == BuildNodeState::Pending {
            assert forall|t: int| 0 <= t < list.len() implies !is_blocked(
                after.states[#[trigger] list[t]],
            ) by {
                assert(!is_blocked(model.states[list[t]]));
                assert(deps[i][t] == list[t]);
                if is_blocked(after.states[list[t]]) {
                    assert(needs(deps, i, node));
                }
            }
        }
        if after.states[i] == BuildNodeState::Skipped {
            if model.states[i] == BuildNodeState::Skipped {
                let t = choose|t: int|
                    0 <= t < list.len() && is_blocked(model.states[#[trigger] list[t]]);
                assert(is_blocked(after.states[list[t]]));
            } else {
                let t = choose|t: int|
                    0 <= t < deps[i].len() && (#[trigger] deps[i][t] == node || (0 <= deps[i][t] < i
                        && needs(deps, deps[i][t], node)));
                let d = list[t];
                assert(!is_blocked(model.states[list[t]]));
                if d != node {
                    if has_started(model.states[d]) {
                        lemma_started_needs_built(model, d, node);
                    }
                }
                assert(is_blocked(after.states[list[t]]));
            }
        }
    }
    lemma_failure_count(model, node);
    let keep = |i: int| after.states[i] == BuildNodeState::Pending;
    assert(after.ready =~= model.ready.filter(keep));
    lemma_filter_no_duplicates(model.ready, keep);
    assert forall|i: int| #[trigger]
        after.ready.contains(i) <==> 0 <= i < n && after.states[i] == BuildNodeState::Pending
            && after.remaining[i] == 0 by {
        if after.ready.contains(i) {
            let p = after.ready.index_of(i);
            model.ready.lemma_filter_pred(keep, p);
            model.ready.lemma_filter_contains_rev(keep, i);
        }
        if 0 <= i < n && after.states[i] == BuildNodeState::Pending && after.remaining[i] == 0 {
            assert(model.ready.contains(i));
            let p = model.ready.index_of(i);
            model.ready.lemma_filter_contains(keep, p);
        }
    }
}

/// Filtering keeps a list free of duplicates.
pub proof fn lemma_filter_no_duplicates(list: Seq<int>, keep: spec_fn(int) -> bool)
    requires
        list.no_duplicates(),
    ensures
        list.filter(keep).no_duplicates(),
    decreases list.len(),
{
    reveal(Seq::filter);
    if list.len() > 0 {
        let front = list.drop_last();
        lemma_filter_no_duplicates(front, keep);
        if keep(list.last()) {
            let less = front.filter(keep);
            assert forall|a: int| 0 <= a < less.len() implies #[trigger] less[a]
                != list.last() by {
                assert(less.contains(less[a]));
                front.lemma_filter_contains_rev(keep, less[a]);
                let p = front.index_of(less[a]);
                assert(list[p] == less[a]);
            }
        }
    }
}

/// A failure takes one node from the running ones.
proof fn lemma_failure_count(model: BuildModel, node: int)
    requires
        0 <= node < model.states.len(),
        model.states[node] == BuildNodeState::Running,
    ensures
        count_in(states_after_failure(model, node), BuildNodeState::Running) == count_in(
            model.states,
            BuildNodeState::Running,
        ) - 1,
        count_in(model.states, BuildNodeState::Running) >= 1,
{
    let marked = model.states.update(node, BuildNodeState::Failed);
    lemma_count_update(model.states, node, BuildNodeState::Failed, BuildNodeState::Running);
    lemma_count_some(model.states, BuildNodeState::Running, node);
    lemma_count_same(states_after_failure(model, node), marked, BuildNodeState::Running);
}

/// Two lists in which the same nodes are in a state have the same count of it.
pub proof fn lemma_count_same(
    states: Seq<BuildNodeState>,
    other: Seq<BuildNodeState>,
    state: BuildNodeState,
)
    requires
        states.len() == other.len(),
        forall|i: int|
            0 <= i < states.len() ==> (#[trigger] states[i] == state) == (other[i] == state),
    ensures
        count_in(states, state) == count_in(other, state),
    decreases states.len(),
{
    if states.len() > 0 {
        assert((states[states.len() - 1] == state) == (other[states.len() - 1] == state));
        assert forall|i: int| 0 <= i < states.drop_last().len() implies (
        #[trigger] states.drop_last()[i] == state) == (other.drop_last()[i] == state) by {
            assert(states[i] == states.drop_last()[i]);
        }
        lemma_count_same(states.drop_last(), other.drop_last(), state);
    }
}

/// At any time, a node is skipped exactly if it depends, directly or through others, on a node
/// whose build failed.
pub proof fn law_skipped_iff_needs_failed(model: BuildModel, i: int)
    requires
        build_fits(model),
        0 <= i < model.deps.len(),
    ensures
        model.states[i] == BuildNodeState::Skipped <==> exists|j: int| #[trigger]
            needs(model.deps, i, j) && model.states[j] == BuildNodeState::Failed,
    decreases i,
{
    let deps = model.deps;
    assert(node_fits(model, i));
    if model.states[i] == BuildNodeState::Skipped {
        let k = choose|k: int|
            0 <= k < deps[i].len() && is_blocked(model.states[#[trigger] deps[i][k]]);
        let d = deps[i][k];
        assert(0 <= d < i);
        if model.states[d] == BuildNodeState::Failed {
            assert(needs(deps, i, d));
        } else {
            law_skipped_iff_needs_failed(model, d);
            let j = choose|j: int| #[trigger]
                needs(deps, d, j) && model.states[j] == BuildNodeState::Failed;
            assert(needs(deps, i, j));
        }
    }
    if exists|j: int| #[trigger] needs(deps, i, j) && model.states[j] == BuildNodeState::Failed {
        let j = choose|j: int| #[trigger]
            needs(deps, i, j) && model.states[j] == BuildNodeState::Failed;
        if has_started(model.states[i]) {
            lemma_started_needs_built(model, i, j);
        }
        let k = choose|k: int|
            0 <= k < deps[i].len() && (#[trigger] deps[i][k] == j || (0 <= deps[i][k] < i && needs(
                deps,
                deps[i][k],
                j,
            )));
        let d = deps[i][k];
        assert(0 <= d < i);
        if d != j {
            law_skipped_iff_needs_failed(model, d);
        }
        assert(is_blocked(model.states[deps[i][k]]));
    }
}

/// As long as a build is not over, something runs once what is ready was started.
pub proof fn law_build_goes_on(model: BuildModel)
    requires
        build_fits(model),
        !is_over(model),
    ensures
        with_started(model).running > 0,
{
}

/// When a build is over, every node is settled: built, failed or skipped.
pub proof fn law_over_is_settled(model: BuildModel)
    requires
        build_fits(model),
        is_over(model),
    ensures
        forall|i: int|
            0 <= i < model.deps.len() ==> #[trigger] model.states[i] == BuildNodeState::Succeeded
                || is_blocked(model.states[i]),
        count_in(model.states, BuildNodeState::Succeeded) + count_in(
            model.states,
            BuildNodeState::Failed,
        ) + count_in(model.states, BuildNodeState::Skipped) == model.deps.len(),
{
    assert forall|i: int| 0 <= i < model.deps.len() implies #[trigger] model.states[i]
        == BuildNodeState::Succeeded || is_blocked(model.states[i]) by {
        lemma_settled(model, i);
    }
    lemma_count_settled(model.states);
}

proof fn lemma_settled(model: BuildModel, i: int)
    requires
        build_fits(model),
        is_over(model),
        0 <= i < model.deps.len(),
    ensures
        model.states[i] == BuildNodeState::Succeeded || is_blocked(model.states[i]),
    decreases i,
{
    let deps = model.deps;
    assert(node_fits(model, i));
    if model.states[i] == BuildNodeState::Running {
        lemma_count_some(model.states, BuildNodeState::Running, i);
    } else if model.states[i] == BuildNodeState::Pending {
        assert forall|k: int| 0 <= k < deps[i].len() implies model.states[#[trigger] deps[i][k]]
            == BuildNodeState::Succeeded by {
            assert(0 <= deps[i][k] < i);
            lemma_settled(model, deps[i][k]);
        }
        lemma_unsatisfied_zero(deps[i], model.states);
        assert(model.ready.contains(i));
    }
}

proof fn lemma_count_settled(states: Seq<BuildNodeState>)
    requires
        forall|i: int|
            0 <= i < states.len() ==> #[trigger] states[i] == BuildNodeState::Succeeded
                || is_blocked(states[i]),
    ensures
        count_in(states, BuildNodeState::Succeeded) + count_in(states, BuildNodeState::Failed)
            + count_in(states, BuildNodeState::Skipped) == states.len(),
    decreases states.len(),
{
    if states.len() > 0 {
        let last = states[states.len() - 1];
        assert(last == BuildNodeState::Succeeded || is_blocked(last));
        assert forall|i: int| 0 <= i < states.drop_last().len() implies
        #[trigger] states.drop_last()[i] == BuildNodeState::Succeeded || is_blocked(
            states.drop_last()[i],
        ) by {
            assert(states[i] == states.drop_last()[i]);
        }
        lemma_count_settled(states.drop_last());
    }
}

/// What was started or skipped is not started again.
pub proof fn law_nothing_starts_twice(model: BuildModel, i: int)
    requires
        build_fits(model),
        0 <= i < model.deps.len(),
        model.states[i] != BuildNodeState::Pending,
    ensures
        !next_started(model).contains(i),
        with_started(model).states[i] == model.states[i],
{
    if next_started(model).contains(i) {
        let p = next_started(model).index_of(i);
        assert(model.ready[p] == i);
        assert(model.ready.contains(i));
    }
}

/// What was started or skipped stays as it is, whatever comes of another node.
pub proof fn law_settled_stays(model: BuildModel, node: int, i: int)
    requires
        build_fits(model),
        0 <= node < model.deps.len(),
        model.states[node] == BuildNodeState::Running,
        0 <= i < model.deps.len(),
        i != node,
        model.states[i] != BuildNodeState::Pending,
    ensures
        with_success(model, node).states[i] == model.states[i],
        with_failure(model, node).states[i] == model.states[i],
{
}

/// A failure leaves alone what does not need the node that failed: it keeps its state, and what
/// was ready stays ready.
pub proof fn law_failure_spares_others(model: BuildModel, node: int, i: int)
    requires
        build_fits(model),
        0 <= node < model.deps.len(),
        model.states[node] == BuildNodeState::Running,
        0 <= i < model.deps.len(),
        i != node,
        !needs(model.deps, i, node),
    ensures
        with_failure(model, node).states[i] == model.states[i],
        with_failure(model, node).ready.contains(i) <==> model.ready.contains(i),
{
    law_failure_fits(model, node);
    let after = with_failure(model, node);
    assert(after.ready.contains(i) <==> after.states[i] == BuildNodeState::Pending
        && after.remaining[i] == 0);
}

/// In a build that is over, exactly that was built of which neither the build nor that of anything
/// it needs failed.
pub proof fn law_built_unless_failed(model: BuildModel, i: int)
    requires
        build_fits(model),
        is_over(model),
        0 <= i < model.deps.len(),
    ensures
        model.states[i] == BuildNodeState::Succeeded <==> model.states[i] != BuildNodeState::Failed
            && !exists|j: int| #[trigger]
            needs(model.deps, i, j) && model.states[j] == BuildNodeState::Failed,
{
    law_over_is_settled(model);
    law_skipped_iff_needs_failed(model, i);
}

/// In a build that is over and in which nothing failed, everything succeeded.
pub proof fn law_no_failure_builds_all(model: BuildModel)
    requires
        build_fits(model),
        is_over(model),
        count_in(model.states, BuildNodeState::Failed) == 0,
    ensures
        forall|i: int|
            0 <= i < model.deps.len() ==> #[trigger] model.states[i] == BuildNodeState::Succeeded,
{
    law_over_is_settled(model);
    assert forall|i: int| 0 <= i < model.deps.len() implies #[trigger] model.states[i]
        == BuildNodeState::Succeeded by {
        if model.states[i] == BuildNodeState::Skipped {
            law_skipped_iff_needs_failed(model, i);
            let j = choose|j: int| #[trigger]
                needs(model.deps, i, j) && model.states[j] == BuildNodeState::Failed;
            lemma_needs_in_range(model.deps, i, j);
            lemma_count_some(model.states, BuildNodeState::Failed, j);
        }
        if model.states[i] == BuildNodeState::Failed {
            lemma_count_some(model.states, BuildNodeState::Failed, i);
        }
    }
}

/// What a node needs stands before it.
pub proof fn lemma_needs_in_range(deps: Seq<Seq<int>>, i: int, j: int)
    requires
        are_earlier(deps),
        0 <= i < deps.len(),
        needs(deps, i, j),
    ensures
        0 <= j < i,
    decreases i,
{
    let k = choose|k: int|
        0 <= k < deps[i].len() && (#[trigger] deps[i][k] == j || (0 <= deps[i][k] < i && needs(
            deps,
            deps[i][k],
            j,
        )));
    if deps[i][k] != j {
        lemma_needs_in_range(deps, deps[i][k], j);
    }
}

/// How many nodes have not come to an end.
pub open spec fn unsettled(states: Seq<BuildNodeState>) -> nat {
    count_in(states, BuildNodeState::Pending) + count_in(states, BuildNodeState::Running)
}

/// Starting nodes brings none to its end.
proof fn lemma_start_settles_none(model: BuildModel, k: int)
    requires
        build_fits(model),
        0 <= k <= free_jobs(model),
    ensures
        unsettled(started(model, k).states) == unsettled(model.states),
    decreases k,
{
    if k == 0 {
        assert(model.ready.take(0) =~= Seq::empty());
        assert(started(model, 0).states =~= model.states);
    } else {
        let before = started(model, k - 1);
        let node = model.ready[k - 1];
        lemma_start_settles_none(model, k - 1);
        lemma_started_fits(model, k - 1);
        lemma_started_fits(model, k);
        assert(before.ready[0] == node);
        assert(before.ready.contains(node));
        lemma_count_update(
            before.states,
            node,
            BuildNodeState::Running,
            BuildNodeState::Pending,
        );
        lemma_count_update(
            before.states,
            node,
            BuildNodeState::Running,
            BuildNodeState::Running,
        );
    }
}

/// If `other` has `state` only where `states` has it, it has it no more often.
proof fn lemma_count_at_most(
    states: Seq<BuildNodeState>,
    other: Seq<BuildNodeState>,
    state: BuildNodeState,
)
    requires
        states.len() == other.len(),
        forall|i: int| 0 <= i < states.len() && #[trigger] other[i] == state ==> states[i] == state,
    ensures
        count_in(other, state) <= count_in(states, state),
    decreases states.len(),
{
    if states.len() > 0 {
        let (front, rest) = (states.drop_last(), other.drop_last());
        assert forall|i: int| 0 <= i < front.len() && #[trigger] rest[i] == state implies front[i]
            == state by {
            assert(other[i] == state);
        }
        lemma_count_at_most(front, rest, state);
        assert(other[other.len() - 1] == other.last());
    }
}

/// A build comes to its end: starting nodes keeps the number of those that have not, and each
/// result lessens it.
pub proof fn law_build_ends(model: BuildModel, node: int)
    requires
        build_fits(model),
    ensures
        unsettled(with_started(model).states) == unsettled(model.states),
        0 <= node < model.deps.len() && model.states[node] == BuildNodeState::Running ==> {
            &&& unsettled(with_success(model, node).states) < unsettled(model.states)
            &&& unsettled(with_failure(model, node).states) < unsettled(model.states)
        },
{
    lemma_start_settles_none(model, free_jobs(model));
    if 0 <= node < model.deps.len() && model.states[node] == BuildNodeState::Running {
        lemma_count_update(
            model.states,
            node,
            BuildNodeState::Succeeded,
            BuildNodeState::Pending,
        );
        lemma_count_update(
            model.states,
            node,
            BuildNodeState::Succeeded,
            BuildNodeState::Running,
        );
        lemma_failure_count(model, node);
        lemma_count_at_most(
            model.states,
            states_after_failure(model, node),
            BuildNodeState::Pending,
        );
    }
}

} // verus!
