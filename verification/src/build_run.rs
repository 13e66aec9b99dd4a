//! Running a build: starting what is ready, and taking in what succeeded or failed.

use vstd::prelude::*;

use crate::entry::{EntrySummary, EntrySummaryView};
use crate::graph::{
    all_dependents, dependents_of, occurrences, positions, BuildExecutionGraph, BuildNodeState,
};
use crate::schedule::{
    ascending, build_fits, count_in, free_jobs, fresh, is_over, next_started, node_fits, skipped_by,
    skipping, started, states_after_failure, with_failure, with_started, with_success, BuildModel,
};
use crate::schedule_laws::{
    law_failure_fits, law_failure_skips_what_needs_it, law_fresh_fits, law_success_fits,
    lemma_ascending_same, lemma_count_some, lemma_dependents, lemma_started_fits,
    lemma_unsatisfied_success,
};
use crate::sort::{is_stable_sort, stable_sort, views, Ranked};

verus! {

/// A build in progress.
pub struct BuildRun {
    graph: BuildExecutionGraph,
    ready: Vec<usize>,
    running: usize,
    max_jobs: usize,
}

/// Nothing but the states of the nodes changed.
pub open spec fn same_but_states(before: BuildExecutionGraph, after: BuildExecutionGraph) -> bool {
    &&& after.order@ == before.order@
    &&& after.nodes@.len() == before.nodes@.len()
    &&& after.entries() == before.entries()
    &&& after.deps() == before.deps()
    &&& after.dependents() == before.dependents()
    &&& after.remaining() == before.remaining()
}

/// Skips the dependents of node `j` that wait, each one directly followed by its own.
pub fn skip_blocked_dependents(
    graph: &mut BuildExecutionGraph,
    j: usize,
    skipped: &mut Vec<usize>,
)
    requires
        old(graph).linked(),
        j < old(graph).nodes@.len(),
    ensures
        final(graph).linked(),
        same_but_states(*old(graph), *final(graph)),
        final(graph).states() == skipping(
            old(graph).dependents(),
            j as int,
            old(graph).dependents()[j as int].len(),
            old(graph).states(),
        ).0,
        positions(final(skipped)@) == positions(old(skipped)@) + skipping(
            old(graph).dependents(),
            j as int,
            old(graph).dependents()[j as int].len(),
            old(graph).states(),
        ).1,
    decreases old(graph).nodes@.len() - j,
{
    let ghost start = *graph;
    let ghost dependents = graph.dependents();
    let ghost deps = graph.deps();
    let ghost mine = dependents[j as int];
    let n: usize = graph.nodes[j].dependents.len();
    let mut k: usize = 0;
    assert(positions(skipped@) + Seq::<int>::empty() =~= positions(skipped@));
    while k < n
        invariant
            k <= n,
            start == *old(graph),
            j < graph.nodes@.len(),
            graph.linked(),
            same_but_states(start, *graph),
            dependents == graph.dependents(),
            dependents == start.dependents(),
            mine == dependents[j as int],
            n == mine.len(),
            graph.states() == skipping(dependents, j as int, k as nat, start.states()).0,
            positions(skipped@) == positions(old(skipped)@) + skipping(
                dependents,
                j as int,
                k as nat,
                start.states(),
            ).1,
        decreases n - k,
    {
        let ghost before = *graph;
        let d: usize = graph.nodes[j].dependents[k];
        proof {
            assert(dependents[j as int] == positions(graph.nodes@[j as int].dependents@));
            assert(mine[k as int] == d);
            lemma_dependents(graph.deps(), j as int);
            assert(dependents_of(graph.deps(), j as int).contains(d as int));
            let p = graph.deps()[d as int].index_of(j as int);
            assert(graph.deps()[d as int][p] == j);
            assert(j < d < graph.nodes@.len());
            assert(graph.states()[d as int] == graph.nodes@[d as int].state);
        }
        if graph.nodes[d].state == BuildNodeState::Pending {
            graph.nodes[d].state = BuildNodeState::Skipped;
            let ghost marked = *graph;
            proof {
                assert(marked.states() =~= before.states().update(
                    d as int,
                    BuildNodeState::Skipped,
                ));
                assert(marked.deps() =~= before.deps());
                assert(marked.dependents() =~= before.dependents());
                assert(marked.remaining() =~= before.remaining());
                assert(marked.entries() =~= before.entries());
            }
            let ghost met = positions(skipped@);
            skipped.push(d);
            assert(positions(skipped@) =~= met.push(d as int));
            skip_blocked_dependents(graph, d, skipped);
            proof {
                let (_, first) = skipping(dependents, j as int, k as nat, start.states());
                let (_, more) = skipping(
                    dependents,
                    d as int,
                    dependents[d as int].len(),
                    marked.states(),
                );
                assert(positions(skipped@) =~= positions(old(skipped)@) + (first.push(d as int)
                    + more));
            }
        }
        k = k + 1;
    }
}

/// Puts the nodes that became ready behind those that already are, in the order of the plan.
pub fn insert_ready_nodes(ready: &mut Vec<usize>, newly_ready: Vec<usize>)
    ensures
        final(ready)@.len() == old(ready)@.len() + newly_ready@.len(),
        final(ready)@.take(old(ready)@.len() as int) == old(ready)@,
        is_stable_sort::<usize>(newly_ready@, final(ready)@.skip(old(ready)@.len() as int)),
{
    let ghost start = ready@;
    assert(views(newly_ready@) =~= newly_ready@);
    let mut sorted: Vec<usize> = stable_sort(newly_ready);
    let ghost tail = sorted@;
    proof {
        assert(views(tail) =~= tail);
        newly_ready@.to_multiset_ensures();
        tail.to_multiset_ensures();
    }
    ready.append(&mut sorted);
    assert(ready@.take(start.len() as int) =~= start);
    assert(ready@.skip(start.len() as int) =~= tail);
}

/// The only list that ascends strictly through the numbers below `n` that satisfy `pick`.
proof fn lemma_ascending_unique(list: Seq<int>, n: nat, pick: spec_fn(int) -> bool)
    requires
        forall|a: int, b: int| 0 <= a < b < list.len() ==> #[trigger] list[a] < #[trigger] list[b],
        forall|x: int| #[trigger] list.contains(x) <==> 0 <= x < n && pick(x),
    ensures
        list == ascending(n, pick),
    decreases n,
{
    if n == 0 {
        if list.len() > 0 {
            assert(list.contains(list[0]));
        }
        assert(list =~= Seq::empty());
    } else if pick(n - 1) {
        assert(list.contains(n - 1));
        let p = list.index_of(n - 1);
        if p < list.len() - 1 {
            assert(list.contains(list[list.len() - 1]));
        }
        let front = list.drop_last();
        assert forall|x: int| #[trigger] front.contains(x) <==> 0 <= x < n - 1 && pick(x) by {
            if front.contains(x) {
                let q = front.index_of(x);
                assert(list[q] == x);
                assert(list.contains(x));
            }
            if 0 <= x < n - 1 && pick(x) {
                assert(list.contains(x));
                let q = list.index_of(x);
                assert(front[q] == x);
            }
        }
        lemma_ascending_unique(front, (n - 1) as nat, pick);
        assert(list =~= front.push(n - 1));
    } else {
        assert forall|x: int| #[trigger] list.contains(x) <==> 0 <= x < n - 1 && pick(x) by {}
        lemma_ascending_unique(list, (n - 1) as nat, pick);
    }
}

/// A part of a list holds nothing more often than the list.
proof fn lemma_occurrences_take(list: Seq<int>, k: int, x: int)
    requires
        0 <= k <= list.len(),
    ensures
        occurrences(list.take(k), x) <= occurrences(list, x),
    decreases list.len(),
{
    if k == list.len() {
        assert(list.take(k) =~= list);
    } else {
        assert(list.drop_last().take(k) =~= list.take(k));
        lemma_occurrences_take(list.drop_last(), k, x);
    }
}

/// Sorting a list without duplicates gives a list that ascends strictly and holds the same.
proof fn lemma_sorted_positions(input: Seq<usize>, output: Seq<usize>)
    requires
        is_stable_sort::<usize>(input, output),
        positions(input).no_duplicates(),
    ensures
        forall|a: int, b: int|
            0 <= a < b < output.len() ==> #[trigger] positions(output)[a] < #[trigger] positions(
                output,
            )[b],
        forall|x: int| #[trigger] positions(output).contains(x) <==> positions(input).contains(x),
{
    assert(input.no_duplicates()) by {
        assert forall|a: int, b: int| 0 <= a < b < input.len() implies input[a] != input[b] by {
            assert(positions(input)[a] != positions(input)[b]);
        }
    }
    input.lemma_multiset_has_no_duplicates();
    output.lemma_multiset_has_no_duplicates_conv();
    assert forall|a: int, b: int| 0 <= a < b < output.len() implies #[trigger] positions(output)[a]
        < #[trigger] positions(output)[b] by {
        assert(output[a] != output[b]);
        assert(<usize as Ranked>::ranks(output[a], output[b]));
    }
    assert forall|x: int| #[trigger] positions(output).contains(x) <==> positions(input).contains(
        x,
    ) by {
        if positions(output).contains(x) {
            let p = positions(output).index_of(x);
            vstd::seq_lib::to_multiset_contains(output, output[p]);
            vstd::seq_lib::to_multiset_contains(input, output[p]);
            assert(input.contains(output[p]));
            assert(positions(input)[input.index_of(output[p])] == x);
        }
        if positions(input).contains(x) {
            let p = positions(input).index_of(x);
            vstd::seq_lib::to_multiset_contains(input, input[p]);
            vstd::seq_lib::to_multiset_contains(output, input[p]);
            assert(output.contains(input[p]));
            assert(positions(output)[output.index_of(input[p])] == x);
        }
    }
}

impl BuildRun {
    /// The state of the build.
    pub closed spec fn model(&self) -> BuildModel {
        BuildModel {
            deps: self.graph.deps(),
            states: self.graph.states(),
            remaining: self.graph.remaining(),
            ready: positions(self.ready@),
            running: self.running as int,
            max_jobs: self.max_jobs as int,
        }
    }

    /// The names of the nodes.
    pub closed spec fn names(&self) -> Seq<Seq<char>> {
        self.graph.names()
    }

    /// The entries of the nodes.
    pub closed spec fn entries(&self) -> Seq<EntrySummaryView> {
        self.graph.entries()
    }

    /// What holds of a build at any time.
    pub closed spec fn fits(&self) -> bool {
        &&& self.graph.linked()
        &&& build_fits(self.model())
    }

    /// A build of `graph` before anything was started.
    pub fn new(graph: BuildExecutionGraph, max_jobs: usize) -> (run: BuildRun)
        requires
            graph.linked(),
            graph.states() == fresh(graph.deps(), max_jobs as int).states,
            graph.remaining() == fresh(graph.deps(), max_jobs as int).remaining,
            max_jobs > 0,
        ensures
            run.fits(),
            run.model() == fresh(graph.deps(), max_jobs as int),
            run.names() == graph.names(),
            run.entries() == graph.entries(),
    {
        let ghost deps = graph.deps();
        let ghost pick = |i: int| deps[i].len() == 0;
        let mut ready: Vec<usize> = Vec::new();
        let mut i: usize = 0;
        assert(positions(ready@) =~= ascending(0, pick));
        while i < graph.nodes.len()
            invariant
                i <= graph.nodes@.len(),
                deps == graph.deps(),
                graph.remaining() == fresh(deps, max_jobs as int).remaining,
                pick == (|i: int| deps[i].len() == 0),
                positions(ready@) == ascending(i as nat, pick),
            decreases graph.nodes@.len() - i,
        {
            assert(graph.remaining()[i as int] == graph.nodes@[i as int].remaining_dependencies);
            let ghost before = positions(ready@);
            if graph.nodes[i].remaining_dependencies == 0 {
                ready.push(i);
                assert(positions(ready@) =~= before.push(i as int));
            }
            i = i + 1;
        }
        let run: BuildRun = BuildRun { graph, ready, running: 0, max_jobs };
        proof {
            assert(run.model() =~= fresh(deps, max_jobs as int));
            law_fresh_fits(deps, max_jobs as int);
        }
        run
    }

    /// Tells whether nothing waits to be started and nothing runs.
    pub fn is_over(&self) -> (b: bool)
        ensures
            b == is_over(self.model()),
    {
        self.ready.len() == 0 && self.running == 0
    }

    /// Starts what is ready, as far as jobs are free, and gives the nodes that were started.
    pub fn start_ready(&mut self) -> (nodes: Vec<usize>)
        requires
            old(self).fits(),
        ensures
            final(self).fits(),
            final(self).model() == with_started(old(self).model()),
            positions(nodes@) == next_started(old(self).model()),
            final(self).names() == old(self).names(),
            final(self).entries() == old(self).entries(),
    {
        let ghost start = self.model();
        let ghost graph = self.graph;
        let mut nodes: Vec<usize> = Vec::new();
        proof {
            lemma_started_fits(start, 0);
            assert(start.ready.take(0) =~= Seq::empty());
            assert(started(start, 0) =~= start);
            assert(positions(nodes@) =~= Seq::empty());
        }
        while self.running < self.max_jobs && self.ready.len() > 0
            invariant
                self.graph.linked(),
                same_but_states(graph, self.graph),
                build_fits(start),
                nodes@.len() <= free_jobs(start),
                self.model() == started(start, nodes@.len() as int),
                positions(nodes@) == start.ready.take(nodes@.len() as int),
            decreases self.ready@.len(),
        {
            let ghost k = nodes@.len() as int;
            let ghost before = self.model();
            let node: usize = self.ready.remove(0);
            proof {
                lemma_started_fits(start, k);
                assert(before.ready[0] == node);
                assert(before.ready.len() == start.ready.len() - k);
                assert(start.ready.skip(k)[0] == start.ready[k]);
                assert(before.ready.contains(node as int));
                assert(before.states[node as int] == self.graph.nodes@[node as int].state);
                assert(positions(self.ready@) =~= before.ready.skip(1));
                assert(start.ready.skip(k).skip(1) =~= start.ready.skip(k + 1));
            }
            if self.graph.nodes[node].state != BuildNodeState::Pending {
                continue;
            }
            let ghost was = self.graph;
            self.graph.nodes[node].state = BuildNodeState::Running;
            self.running = self.running + 1;
            proof {
                assert(self.graph.states() =~= was.states().update(
                    node as int,
                    BuildNodeState::Running,
                ));
                assert(self.graph.deps() =~= was.deps());
                assert(self.graph.dependents() =~= was.dependents());
                assert(self.graph.remaining() =~= was.remaining());
                assert(self.graph.entries() =~= was.entries());
                lemma_started_fits(start, k + 1);
                assert(self.model() =~= started(start, k + 1));
            }
            let ghost so_far = positions(nodes@);
            nodes.push(node);
            assert(positions(nodes@) =~= so_far.push(node as int));
            assert(start.ready.take(k).push(start.ready[k]) =~= start.ready.take(k + 1));
        }
        proof {
            lemma_started_fits(start, nodes@.len() as int);
            assert(positions(self.ready@).len() == start.ready.len() - nodes@.len());
            assert(nodes@.len() == free_jobs(start));
        }
        nodes
    }

    /// Takes in that the build of `node` succeeded.
    pub fn task_succeeded(&mut self, node: usize)
        requires
            old(self).fits(),
            node < old(self).names().len(),
            old(self).model().states[node as int] == BuildNodeState::Running,
        ensures
            final(self).fits(),
            final(self).model() == with_success(old(self).model(), node as int),
            final(self).names() == old(self).names(),
            final(self).entries() == old(self).entries(),
    {
        let ghost start = self.model();
        let ghost goal = with_success(start, node as int);
        let ghost was = self.graph;
        let ghost deps = start.deps;
        let ghost states = goal.states;
        let ghost mine = dependents_of(deps, node as int);
        proof {
            lemma_count_some(start.states, BuildNodeState::Running, node as int);
            lemma_dependents(deps, node as int);
            assert forall|i: int|
                0 <= i < deps.len() && states[i] == BuildNodeState::Pending implies occurrences(
                mine,
                i,
            ) <= #[trigger] start.remaining[i] by {
                assert(node_fits(start, i));
                lemma_unsatisfied_success(deps[i], start.states, node as int);
            }
        }
        self.graph.nodes[node].state = BuildNodeState::Succeeded;
        self.running = self.running - 1;
        proof {
            assert(self.graph.states() =~= states);
            assert(self.graph.deps() =~= was.deps());
            assert(self.graph.dependents() =~= was.dependents());
            assert(self.graph.remaining() =~= was.remaining());
            assert(self.graph.entries() =~= was.entries());
            assert(mine =~= self.graph.dependents()[node as int]);
            assert(mine.take(0) =~= Seq::empty());
        }
        let mut newly_ready: Vec<usize> = Vec::new();
        assert(positions(newly_ready@) =~= Seq::empty());
        let n: usize = self.graph.nodes[node].dependents.len();
        let mut k: usize = 0;
        while k < n
            invariant
                k <= n,
                n == mine.len(),
                node < deps.len(),
                mine == dependents_of(deps, node as int),
                states.len() == deps.len(),
                start.remaining.len() == deps.len(),
                self.graph.order@ == was.order@,
                self.graph.nodes@.len() == deps.len(),
                self.graph.entries() == was.entries(),
                self.graph.deps() == deps,
                self.graph.dependents() == all_dependents(deps),
                self.graph.states() == states,
                self.ready@ == old(self).ready@,
                self.running == start.running - 1,
                self.max_jobs == start.max_jobs,
                forall|i: int|
                    0 <= i < deps.len() && states[i] == BuildNodeState::Pending ==> occurrences(
                        mine,
                        i,
                    ) <= #[trigger] start.remaining[i],
                forall|i: int|
                    0 <= i < deps.len() ==> #[trigger] self.graph.remaining()[i]
                        == start.remaining[i] - (if states[i] == BuildNodeState::Pending {
                        occurrences(mine.take(k as int), i)
                    } else {
                        0
                    }),
                forall|i: int| #[trigger]
                    positions(newly_ready@).contains(i) <==> mine.take(k as int).contains(i)
                        && states[i] == BuildNodeState::Pending && self.graph.remaining()[i] == 0,
                positions(newly_ready@).no_duplicates(),
            decreases n - k,
        {
            let ghost now = self.graph;
            let ghost so_far = positions(newly_ready@);
            let ghost done = mine.take(k as int);
            let ghost more = mine.take(k + 1);
            proof {
                assert(mine == self.graph.dependents()[node as int]);
                lemma_dependents(deps, node as int);
                assert(mine.contains(mine[k as int]));
                assert(more =~= done.push(mine[k as int]));
                assert(more.drop_last() =~= done);
                assert forall|i: int| #[trigger] occurrences(more, i) <= occurrences(mine, i) by {
                    lemma_occurrences_take(mine, k + 1, i);
                }
                assert forall|i: int| #[trigger] more.contains(i) <==> done.contains(i) || i
                    == mine[k as int] by {
                    if done.contains(i) {
                        assert(more[done.index_of(i)] == i);
                    }
                    assert(more[k as int] == mine[k as int]);
                }
            }
            let dependent: usize = self.graph.nodes[node].dependents[k];
            let ghost d = dependent as int;
            proof {
                assert(mine[k as int] == d);
                assert(self.graph.states()[d] == self.graph.nodes@[d].state);
                assert(self.graph.remaining()[d] == self.graph.nodes@[d].remaining_dependencies);
                assert(occurrences(more, d) == occurrences(done, d) + 1);
            }
            if self.graph.nodes[dependent].state == BuildNodeState::Pending {
                if self.graph.nodes[dependent].remaining_dependencies > 0 {
                    let less: usize = self.graph.nodes[dependent].remaining_dependencies - 1;
                    self.graph.nodes[dependent].remaining_dependencies = less;
                }
                proof {
                    assert(start.remaining[d] >= occurrences(mine, d));
                    assert(self.graph.states() =~= now.states());
                    assert(self.graph.deps() =~= now.deps());
                    assert(self.graph.dependents() =~= now.dependents());
                    assert(self.graph.entries() =~= now.entries());
                    assert(self.graph.remaining() =~= now.remaining().update(
                        d,
                        now.remaining()[d] - 1,
                    ));
                    assert(!so_far.contains(d));
                }
                if self.graph.nodes[dependent].remaining_dependencies == 0 {
                    newly_ready.push(dependent);
                    proof {
                        assert(positions(newly_ready@) =~= so_far.push(d));
                        assert forall|i: int| #[trigger]
                            positions(newly_ready@).contains(i) <==> so_far.contains(i) || i
                                == d by {
                            if so_far.contains(i) {
                                assert(positions(newly_ready@)[so_far.index_of(i)] == i);
                            }
                            assert(positions(newly_ready@)[so_far.len() as int] == d);
                        }
                    }
                }
            }
            proof {
                assert forall|i: int| 0 <= i < deps.len() implies #[trigger] self.graph.remaining()[i]
                    == start.remaining[i] - (if states[i] == BuildNodeState::Pending {
                    occurrences(more, i)
                } else {
                    0
                }) by {
                    assert(now.remaining()[i] == start.remaining[i] - (if states[i]
                        == BuildNodeState::Pending {
                        occurrences(done, i)
                    } else {
                        0
                    }));
                }
                assert forall|i: int| #[trigger]
                    positions(newly_ready@).contains(i) <==> more.contains(i) && states[i]
                        == BuildNodeState::Pending && self.graph.remaining()[i] == 0 by {
                    assert(so_far.contains(i) <==> done.contains(i) && states[i]
                        == BuildNodeState::Pending && now.remaining()[i] == 0);
                    if done.contains(i) {
                        assert(mine[done.index_of(i)] == i);
                        assert(mine.contains(i));
                        assert(self.graph.remaining()[i] == start.remaining[i] - (if states[i]
                            == BuildNodeState::Pending {
                            occurrences(more, i)
                        } else {
                            0
                        }));
                    }
                }
            }
            k = k + 1;
        }
        let ghost met = positions(newly_ready@);
        let ghost new_ready = newly_ready@;
        insert_ready_nodes(&mut self.ready, newly_ready);
        proof {
            lemma_dependents(deps, node as int);
            assert(mine.take(k as int) =~= mine);
            assert(self.graph.remaining() =~= goal.remaining);
            let tail = self.ready@.skip(old(self).ready@.len() as int);
            let pick = |i: int|
                states[i] == BuildNodeState::Pending && deps[i].contains(node as int)
                    && goal.remaining[i] == 0;
            lemma_sorted_positions(new_ready, tail);
            lemma_ascending_unique(positions(tail), deps.len(), pick);
            lemma_ascending_same(
                deps.len(),
                pick,
                |i: int|
                    states[i] == BuildNodeState::Pending && deps[i].contains(node as int)
                        && goal.remaining[i] == 0,
            );
            assert(self.ready@ =~= old(self).ready@ + tail);
            assert(positions(self.ready@) =~= start.ready + positions(tail));
            assert(self.model() =~= goal);
            law_success_fits(start, node as int);
        }
    }

    /// Takes in that the build of `node` failed, and gives the nodes that are skipped for it.
    pub fn task_failed(&mut self, node: usize) -> (skipped: Vec<usize>)
        requires
            old(self).fits(),
            node < old(self).names().len(),
            old(self).model().states[node as int] == BuildNodeState::Running,
        ensures
            final(self).fits(),
            final(self).model() == with_failure(old(self).model(), node as int),
            positions(skipped@) == skipped_by(old(self).model(), node as int),
            final(self).names() == old(self).names(),
            final(self).entries() == old(self).entries(),
    {
        let ghost start = self.model();
        let ghost goal = with_failure(start, node as int);
        let ghost was = self.graph;
        proof {
            lemma_count_some(start.states, BuildNodeState::Running, node as int);
            law_failure_skips_what_needs_it(start, node as int);
        }
        self.graph.nodes[node].state = BuildNodeState::Failed;
        self.running = self.running - 1;
        let mut skipped: Vec<usize> = Vec::new();
        proof {
            assert(self.graph.states() =~= start.states.update(node as int, BuildNodeState::Failed));
            assert(self.graph.deps() =~= was.deps());
            assert(self.graph.dependents() =~= was.dependents());
            assert(self.graph.remaining() =~= was.remaining());
            assert(self.graph.entries() =~= was.entries());
            assert(positions(skipped@) =~= Seq::empty());
        }
        skip_blocked_dependents(&mut self.graph, node, &mut skipped);
        let ghost states = states_after_failure(start, node as int);
        assert(positions(skipped@) =~= skipped_by(start, node as int));
        assert(self.graph.states() == states);
        let ghost keep = |i: int| states[i] == BuildNodeState::Pending;
        let ghost waiting = start.ready;
        let mut ready: Vec<usize> = Vec::new();
        let mut k: usize = 0;
        proof {
            assert(waiting.take(0) =~= Seq::empty());
            reveal(Seq::filter);
            assert(positions(ready@) =~= waiting.take(0).filter(keep));
        }
        while k < self.ready.len()
            invariant
                k <= self.ready@.len(),
                waiting == positions(self.ready@),
                self.graph.states() == states,
                forall|i: int| #[trigger] waiting.contains(i) ==> 0 <= i < states.len(),
                keep == (|i: int| states[i] == BuildNodeState::Pending),
                positions(ready@) == waiting.take(k as int).filter(keep),
            decreases self.ready@.len() - k,
        {
            let next: usize = self.ready[k];
            let ghost so_far = positions(ready@);
            proof {
                assert(waiting[k as int] == next);
                assert(waiting.contains(next as int));
                assert(waiting.take(k + 1) =~= waiting.take(k as int).push(next as int));
                waiting.take(k as int).lemma_filter_push(next as int, keep);
                assert(self.graph.states()[next as int] == self.graph.nodes@[next as int].state);
            }
            if self.graph.nodes[next].state == BuildNodeState::Pending {
                ready.push(next);
                assert(positions(ready@) =~= so_far.push(next as int));
            }
            k = k + 1;
        }
        assert(waiting.take(k as int) =~= waiting);
        self.ready = ready;
        proof {
            assert(waiting.filter(keep) =~= goal.ready);
            assert(self.model() =~= goal);
            law_failure_fits(start, node as int);
        }
        skipped
    }

    /// What is skipped when a node fails has a name.
    pub proof fn lemma_skipped_have_names(&self, before: BuildModel, node: int, skipped: Seq<usize>)
        requires
            self.fits(),
            build_fits(before),
            before.deps.len() == self.model().deps.len(),
            0 <= node < before.deps.len(),
            before.states[node] == BuildNodeState::Running,
            positions(skipped) == skipped_by(before, node),
        ensures
            forall|i: int|
                0 <= i < skipped.len() ==> #[trigger] skipped[i] < self.names().len(),
    {
        law_failure_skips_what_needs_it(before, node);
        assert forall|i: int| 0 <= i < skipped.len() implies #[trigger] skipped[i]
            < self.names().len() by {
            assert(positions(skipped)[i] == skipped[i]);
            assert(skipped_by(before, node).contains(skipped[i] as int));
        }
    }

    /// A build fits, and has as many names as nodes.
    pub proof fn lemma_fits(&self)
        requires
            self.fits(),
        ensures
            build_fits(self.model()),
            self.names().len() == self.model().deps.len(),
            self.entries().len() == self.model().deps.len(),
    {
    }

    /// How many nodes the build has.
    pub fn len(&self) -> (n: usize)
        requires
            self.fits(),
        ensures
            n == self.names().len(),
            n == self.model().deps.len(),
    {
        self.graph.nodes.len()
    }

    /// Tells whether `node` was started and has not come to an end.
    pub fn is_running(&self, node: usize) -> (b: bool)
        requires
            self.fits(),
        ensures
            b == (node < self.names().len() && self.model().states[node as int]
                == BuildNodeState::Running),
    {
        if node < self.graph.nodes.len() {
            assert(self.graph.states()[node as int] == self.graph.nodes@[node as int].state);
            self.graph.nodes[node].state == BuildNodeState::Running
        } else {
            false
        }
    }

    /// The name of `node`.
    pub fn name(&self, node: usize) -> (name: &String)
        requires
            self.fits(),
            node < self.names().len(),
        ensures
            name@ == self.names()[node as int],
    {
        assert(self.graph.names()[node as int] == self.graph.order@[node as int]@);
        &self.graph.order[node]
    }

    /// The entry of `node`.
    pub fn entry(&self, node: usize) -> (entry: &EntrySummary)
        requires
            self.fits(),
            node < self.names().len(),
        ensures
            entry@ == self.entries()[node as int],
    {
        assert(self.graph.entries()[node as int] == self.graph.nodes@[node as int].entry@);
        &self.graph.nodes[node].entry
    }

    /// How many nodes are in state `state`.
    pub fn count(&self, state: BuildNodeState) -> (n: usize)
        ensures
            n == count_in(self.model().states, state),
    {
        let ghost states = self.graph.states();
        let mut n: usize = 0;
        let mut i: usize = 0;
        assert(states.take(0) =~= Seq::empty());
        while i < self.graph.nodes.len()
            invariant
                i <= self.graph.nodes@.len(),
                n <= i,
                states == self.graph.states(),
                n == count_in(states.take(i as int), state),
            decreases self.graph.nodes@.len() - i,
        {
            assert(states.take(i + 1).drop_last() =~= states.take(i as int));
            assert(states.take(i + 1).last() == self.graph.nodes@[i as int].state);
            if self.graph.nodes[i].state == state {
                n = n + 1;
            }
            i = i + 1;
        }
        assert(states.take(i as int) =~= states);
        n
    }
}

} // verus!
