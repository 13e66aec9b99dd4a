//! The graph of one build: its nodes in the order of the plan, linked by position.

use vstd::prelude::*;
use vstd::string::*;

use crate::entry::{records, EntrySummary, EntrySummaryView};
use crate::error::{Error, ErrorView};
use crate::plan::{
    build_plan, dependency_map, find_entry, lemma_latest, lemma_unknown, recorded,
    resolve_build_plan,
};
use crate::plan_laws::{is_ordered, law_plan_is_closed_and_ordered};
use crate::text::texts;

verus! {

/// How far a node has come.
#[derive(Clone, Copy, Debug, PartialEq, Eq, Structural)]
pub enum BuildNodeState {
    Pending,
    Running,
    Succeeded,
    Failed,
    Skipped,
}

/// One entry of a build. Other nodes are named by their position in the plan.
pub struct BuildNode {
    pub entry: EntrySummary,
    pub dependencies: Vec<usize>,
    pub dependents: Vec<usize>,
    pub remaining_dependencies: usize,
    pub state: BuildNodeState,
}

/// The nodes of a build, in the order of its plan.
pub struct BuildExecutionGraph {
    pub order: Vec<String>,
    pub nodes: Vec<BuildNode>,
}

/// A list of positions as integers.
pub open spec fn positions(list: Seq<usize>) -> Seq<int> {
    list.map_values(|p: usize| p as int)
}

impl BuildExecutionGraph {
    /// The names of the nodes.
    pub open spec fn names(&self) -> Seq<Seq<char>> {
        texts(self.order@)
    }

    /// The entries of the nodes.
    pub open spec fn entries(&self) -> Seq<EntrySummaryView> {
        self.nodes@.map_values(|n: BuildNode| n.entry@)
    }

    /// What each node depends on.
    pub open spec fn deps(&self) -> Seq<Seq<int>> {
        self.nodes@.map_values(|n: BuildNode| positions(n.dependencies@))
    }

    /// What depends on each node.
    pub open spec fn dependents(&self) -> Seq<Seq<int>> {
        self.nodes@.map_values(|n: BuildNode| positions(n.dependents@))
    }

    /// How many dependencies each node waits for.
    pub open spec fn remaining(&self) -> Seq<int> {
        self.nodes@.map_values(|n: BuildNode| n.remaining_dependencies as int)
    }

    /// The states of the nodes.
    pub open spec fn states(&self) -> Seq<BuildNodeState> {
        self.nodes@.map_values(|n: BuildNode| n.state)
    }

    /// Every dependency stands before what depends on it, and the links go both ways.
    pub open spec fn linked(&self) -> bool {
        &&& self.order@.len() == self.nodes@.len()
        &&& are_earlier(self.deps())
        &&& self.dependents() == all_dependents(self.deps())
    }
}

/// Every dependency stands before what depends on it.
pub open spec fn are_earlier(deps: Seq<Seq<int>>) -> bool {
    forall|i: int, k: int|
        0 <= i < deps.len() && 0 <= k < deps[i].len() ==> 0 <= #[trigger] deps[i][k] < i
}

/// How often `x` occurs in `list`.
pub open spec fn occurrences(list: Seq<int>, x: int) -> nat
    decreases list.len(),
{
    if list.len() == 0 {
        0
    } else {
        occurrences(list.drop_last(), x) + if list.last() == x {
            1nat
        } else {
            0nat
        }
    }
}

/// The positions of the nodes that list `j`, in order, each as often as it lists `j`.
pub open spec fn dependents_of(deps: Seq<Seq<int>>, j: int) -> Seq<int>
    decreases deps.len(),
{
    if deps.len() == 0 {
        Seq::empty()
    } else {
        dependents_of(deps.drop_last(), j) + Seq::new(
            occurrences(deps.last(), j),
            |k: int| deps.len() - 1,
        )
    }
}

/// The dependents of every node.
pub open spec fn all_dependents(deps: Seq<Seq<int>>) -> Seq<Seq<int>> {
    Seq::new(deps.len(), |j: int| dependents_of(deps, j))
}

/// The positions at which the names of `list` stand in `plan`.
pub open spec fn places(plan: Seq<Seq<char>>, list: Seq<Seq<char>>) -> Seq<int> {
    list.map_values(|name: Seq<char>| plan.index_of(name))
}

/// What each entry depends on, by position in the plan.
pub open spec fn plan_deps(entries: Seq<EntrySummaryView>, plan: Seq<Seq<char>>) -> Seq<Seq<int>> {
    Seq::new(plan.len(), |i: int| places(plan, recorded(entries)[plan[i]].config.depends_on))
}

/// The graph of a plan: each name stands for its entry, and every node waits for all of its
/// dependencies.
pub open spec fn is_graph_of(
    graph: BuildExecutionGraph,
    entries: Seq<EntrySummaryView>,
    plan: Seq<Seq<char>>,
) -> bool {
    &&& graph.names() == plan
    &&& graph.entries() == Seq::new(plan.len(), |i: int| recorded(entries)[plan[i]])
    &&& graph.deps() == plan_deps(entries, plan)
    &&& graph.dependents() == all_dependents(plan_deps(entries, plan))
    &&& graph.remaining() == Seq::new(plan.len(), |i: int| plan_deps(entries, plan)[i].len() as int)
    &&& graph.states() == Seq::new(plan.len(), |i: int| BuildNodeState::Pending)
}

/// The position of a name in a list in which it occurs at most once.
pub fn position_of(names: &Vec<String>, name: &String) -> (found: Option<usize>)
    requires
        texts(names@).no_duplicates(),
    ensures
        match found {
            Some(p) => p < names@.len() && texts(names@)[p as int] == name@ && texts(
                names@,
            ).index_of(name@) == p,
            None => !texts(names@).contains(name@),
        },
{
    let mut i: usize = 0;
    while i < names.len()
        invariant
            i <= names@.len(),
            texts(names@).no_duplicates(),
            forall|j: int| 0 <= j < i ==> texts(names@)[j] != name@,
        decreases names@.len() - i,
    {
        if names[i] == *name {
            assert(texts(names@)[i as int] == name@);
            assert(texts(names@).contains(name@));
            return Some(i);
        }
        i = i + 1;
    }
    assert(texts(names@).len() == names@.len());
    None
}

fn dependency_positions(order: &Vec<String>, depends_on: &Vec<String>) -> (list: Vec<usize>)
    requires
        texts(order@).no_duplicates(),
        forall|k: int| 0 <= k < depends_on@.len() ==> texts(order@).contains(#[trigger] depends_on@[k]@),
    ensures
        positions(list@) == places(texts(order@), texts(depends_on@)),
{
    let mut list: Vec<usize> = Vec::new();
    let mut k: usize = 0;
    while k < depends_on.len()
        invariant
            k <= depends_on@.len(),
            texts(order@).no_duplicates(),
            forall|k: int|
                0 <= k < depends_on@.len() ==> texts(order@).contains(#[trigger] depends_on@[k]@),
            list@.len() == k,
            forall|j: int|
                0 <= j < k ==> #[trigger] list@[j] == texts(order@).index_of(depends_on@[j]@),
        decreases depends_on@.len() - k,
    {
        assert(texts(order@).contains(depends_on@[k as int]@));
        match position_of(order, &depends_on[k]) {
            Some(p) => {
                list.push(p);
            },
            None => {},
        }
        k = k + 1;
    }
    assert(positions(list@) =~= places(texts(order@), texts(depends_on@)));
    list
}

fn dependents_at(deps: &Vec<Vec<usize>>, j: usize) -> (list: Vec<usize>)
    ensures
        positions(list@) == dependents_of(deps@.map_values(|v: Vec<usize>| positions(v@)), j as int),
{
    let ghost all = deps@.map_values(|v: Vec<usize>| positions(v@));
    let mut list: Vec<usize> = Vec::new();
    let mut i: usize = 0;
    assert(all.take(0) =~= Seq::empty());
    assert(positions(list@) =~= Seq::empty());
    while i < deps.len()
        invariant
            i <= deps@.len(),
            all == deps@.map_values(|v: Vec<usize>| positions(v@)),
            positions(list@) == dependents_of(all.take(i as int), j as int),
        decreases deps@.len() - i,
    {
        let ghost before = positions(list@);
        let ghost mine = all[i as int];
        let mut k: usize = 0;
        assert(mine.take(0) =~= Seq::empty());
        assert(before + Seq::new(0, |x: int| i as int) =~= before);
        while k < deps[i].len()
            invariant
                i < deps@.len(),
                k <= deps@[i as int]@.len(),
                mine == positions(deps@[i as int]@),
                positions(list@) == before + Seq::new(
                    occurrences(mine.take(k as int), j as int),
                    |x: int| i as int,
                ),
            decreases deps@[i as int]@.len() - k,
        {
            assert(mine.take(k + 1).drop_last() =~= mine.take(k as int));
            assert(mine.take(k + 1).last() == deps@[i as int]@[k as int]);
            if deps[i][k] == j {
                let ghost so_far = positions(list@);
                list.push(i);
                assert(positions(list@) =~= so_far.push(i as int));
                assert(positions(list@) =~= before + Seq::new(
                    occurrences(mine.take(k + 1), j as int),
                    |x: int| i as int,
                ));
            }
            k = k + 1;
        }
        assert(mine.take(k as int) =~= mine);
        assert(all.take(i + 1).drop_last() =~= all.take(i as int));
        assert(all.take(i + 1).last() == mine);
        assert(Seq::new(occurrences(mine, j as int), |x: int| i as int) =~= Seq::new(
            occurrences(mine, j as int),
            |x: int| all.take(i + 1).len() - 1,
        ));
        i = i + 1;
    }
    assert(all.take(i as int) =~= all);
    list
}

/// In an ordered plan, the positions of dependencies are earlier.
pub proof fn lemma_plan_deps_earlier(entries: Seq<EntrySummaryView>, targets: Seq<Seq<char>>)
    ensures
        build_plan(entries, targets) matches Ok(plan) ==> are_earlier(plan_deps(entries, plan)),
{
    law_plan_is_closed_and_ordered(entries, targets);
    if let Ok(plan) = build_plan(entries, targets) {
        let deps = plan_deps(entries, plan);
        assert forall|i: int, k: int|
            0 <= i < deps.len() && 0 <= k < deps[i].len() implies 0 <= #[trigger] deps[i][k] < i by {
            lemma_recorded_deps(entries, plan[i]);
            let listed = recorded(entries)[plan[i]].config.depends_on;
            assert(listed.contains(listed[k]));
            assert(plan.take(i).contains(listed[k]));
            let j = plan.take(i).index_of(listed[k]);
            assert(plan[j] == listed[k]);
            assert(plan.contains(listed[k]));
        }
    }
}

/// The two maps agree.
pub proof fn lemma_recorded_deps(entries: Seq<EntrySummaryView>, name: Seq<char>)
    requires
        dependency_map(entries).dom().contains(name),
    ensures
        recorded(entries).dom().contains(name),
        dependency_map(entries)[name] == recorded(entries)[name].config.depends_on,
    decreases entries.len(),
{
    if entries.len() > 0 && entries.last().config.name != name {
        lemma_recorded_deps(entries.drop_last(), name);
    }
}

/// The graph for building `targets`.
pub fn build_execution_graph(entries: &[EntrySummary], targets: &[String]) -> (result: Result<
    BuildExecutionGraph,
    Error,
>)
    ensures
        match result {
            Ok(graph) => {
                &&& build_plan(records(entries@), texts(targets@)) == Ok::<
                    Seq<Seq<char>>,
                    ErrorView,
                >(graph.names())
                &&& is_graph_of(graph, records(entries@), graph.names())
                &&& graph.linked()
            },
            Err(e) => build_plan(records(entries@), texts(targets@)) == Err::<
                Seq<Seq<char>>,
                ErrorView,
            >(e@),
        },
{
    let order: Vec<String> = match resolve_build_plan(entries, targets) {
        Ok(order) => order,
        Err(e) => {
            return Err(e);
        },
    };
    let ghost all = records(entries@);
    let ghost plan = texts(order@);
    let ghost map = dependency_map(all);
    proof {
        law_plan_is_closed_and_ordered(all, texts(targets@));
        lemma_plan_deps_earlier(all, texts(targets@));
    }
    let mut chosen: Vec<usize> = Vec::new();
    let mut deps: Vec<Vec<usize>> = Vec::new();
    let mut i: usize = 0;
    while i < order.len()
        invariant
            i <= order@.len(),
            all == records(entries@),
            plan == texts(order@),
            map == dependency_map(all),
            is_ordered(map, plan),
            chosen@.len() == i,
            deps@.len() == i,
            forall|j: int|
                0 <= j < i ==> (#[trigger] chosen@[j]) < entries@.len() && entries@[chosen@[j] as int]@
                    == recorded(all)[plan[j]],
            forall|j: int|
                0 <= j < i ==> positions((#[trigger] deps@[j])@) == plan_deps(all, plan)[j],
        decreases order@.len() - i,
    {
        assert(plan[i as int] == order@[i as int]@);
        assert(map.dom().contains(plan[i as int]));
        match find_entry(entries, &order[i]) {
            Some(index) => {
                proof {
                    lemma_latest(all, plan[i as int], index as int);
                    assert(all[index as int] == entries@[index as int]@);
                    let listed = texts(entries@[index as int].config.depends_on@);
                    assert forall|k: int| 0 <= k < listed.len() implies plan.contains(
                        #[trigger] entries@[index as int].config.depends_on@[k]@,
                    ) by {
                        assert(listed[k] == entries@[index as int].config.depends_on@[k]@);
                        assert(map[plan[i as int]].contains(listed[k]));
                        assert(plan.take(i as int).contains(listed[k]));
                        let p = plan.take(i as int).index_of(listed[k]);
                        assert(plan[p] == listed[k]);
                    }
                }
                let list: Vec<usize> = dependency_positions(
                    &order,
                    &entries[index].config.depends_on,
                );
                deps.push(list);
                chosen.push(index);
            },
            None => {
                proof {
                    lemma_unknown(all, plan[i as int]);
                    assert(false);
                }
            },
        }
        i = i + 1;
    }
    let ghost dep_lists = deps@.map_values(|v: Vec<usize>| positions(v@));
    assert(dep_lists =~= plan_deps(all, plan));
    let mut nodes: Vec<BuildNode> = Vec::new();
    let mut i: usize = 0;
    while i < order.len()
        invariant
            i <= order@.len(),
            plan == texts(order@),
            dep_lists == deps@.map_values(|v: Vec<usize>| positions(v@)),
            dep_lists == plan_deps(all, plan),
            chosen@.len() == order@.len(),
            deps@.len() == order@.len(),
            forall|j: int|
                0 <= j < order@.len() ==> (#[trigger] chosen@[j]) < entries@.len()
                    && entries@[chosen@[j] as int]@ == recorded(all)[plan[j]],
            nodes@.len() == i,
            forall|j: int|
                0 <= j < i ==> {
                    let node = #[trigger] nodes@[j];
                    &&& node.entry@ == recorded(all)[plan[j]]
                    &&& positions(node.dependencies@) == dep_lists[j]
                    &&& positions(node.dependents@) == dependents_of(dep_lists, j)
                    &&& node.remaining_dependencies == dep_lists[j].len()
                    &&& node.state == BuildNodeState::Pending
                },
        decreases order@.len() - i,
    {
        let dependencies: Vec<usize> = deps[i].clone();
        assert(dependencies@ =~= deps@[i as int]@);
        assert(dep_lists[i as int] == positions(deps@[i as int]@));
        let dependents: Vec<usize> = dependents_at(&deps, i);
        let remaining_dependencies: usize = dependencies.len();
        let node: BuildNode = BuildNode {
            entry: entries[chosen[i]].clone(),
            dependencies,
            dependents,
            remaining_dependencies,
            state: BuildNodeState::Pending,
        };
        nodes.push(node);
        i = i + 1;
    }
    let graph: BuildExecutionGraph = BuildExecutionGraph { order, nodes };
    assert(graph.entries() =~= Seq::new(plan.len(), |i: int| recorded(all)[plan[i]]));
    assert(graph.deps() =~= plan_deps(all, plan));
    assert(graph.dependents() =~= all_dependents(plan_deps(all, plan)));
    assert(graph.remaining() =~= Seq::new(
        plan.len(),
        |i: int| plan_deps(all, plan)[i].len() as int,
    ));
    assert(graph.states() =~= Seq::new(plan.len(), |i: int| BuildNodeState::Pending));
    Ok(graph)
}

} // verus!
