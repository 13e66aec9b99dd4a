//! What holds of the course of a build, told of entries by their names.

use vstd::prelude::*;

use crate::entry::EntrySummaryView;
use crate::error::ErrorView;
use crate::graph::{lemma_plan_deps_earlier, lemma_recorded_deps, plan_deps, BuildNodeState};
use crate::plan::{build_plan, dependency_map, recorded};
use crate::plan_laws::{
    depends, law_plan_is_closed_and_ordered, leads, lemma_chain_in_plan, lemma_depends_reaches,
    lemma_reaches_itself, lemma_step, lists,
};
use crate::schedule::{build_fits, has_started, needs, skipped_by, BuildModel};
use crate::schedule_laws::{
    law_failure_skips_what_needs_it, law_skipped_iff_needs_failed, lemma_needs_in_range,
    lemma_started_needs_built,
};

verus! {

/// `plan` is a plan for some targets, and the nodes of `model` depend on each other as its entries
/// do.
pub open spec fn is_build_of(
    model: BuildModel,
    entries: Seq<EntrySummaryView>,
    targets: Seq<Seq<char>>,
    plan: Seq<Seq<char>>,
) -> bool {
    &&& build_plan(entries, targets) == Ok::<Seq<Seq<char>>, ErrorView>(plan)
    &&& model.deps == plan_deps(entries, plan)
}

/// The positions that an entry of a plan lists are those of its dependencies.
proof fn lemma_listed_places(
    entries: Seq<EntrySummaryView>,
    targets: Seq<Seq<char>>,
    plan: Seq<Seq<char>>,
    i: int,
    k: int,
)
    requires
        build_plan(entries, targets) == Ok::<Seq<Seq<char>>, ErrorView>(plan),
        0 <= i < plan.len(),
        0 <= k < dependency_map(entries)[plan[i]].len(),
    ensures
        plan_deps(entries, plan)[i].len() == dependency_map(entries)[plan[i]].len(),
        0 <= plan_deps(entries, plan)[i][k] < i,
        plan[plan_deps(entries, plan)[i][k]] == dependency_map(entries)[plan[i]][k],
        lists(dependency_map(entries), plan[i], dependency_map(entries)[plan[i]][k]),
{
    let map = dependency_map(entries);
    law_plan_is_closed_and_ordered(entries, targets);
    lemma_plan_deps_earlier(entries, targets);
    assert(map.dom().contains(plan[i]));
    lemma_recorded_deps(entries, plan[i]);
    let name = map[plan[i]][k];
    assert(map[plan[i]].contains(name));
    assert(plan.take(i).contains(name));
    let p = plan.take(i).index_of(name);
    assert(plan[p] == name);
    assert(plan.contains(name));
    assert(plan_deps(entries, plan)[i][k] == plan.index_of(name));
}

proof fn lemma_needs_depends(
    entries: Seq<EntrySummaryView>,
    targets: Seq<Seq<char>>,
    plan: Seq<Seq<char>>,
    i: int,
    j: int,
)
    requires
        build_plan(entries, targets) == Ok::<Seq<Seq<char>>, ErrorView>(plan),
        0 <= i < plan.len(),
        needs(plan_deps(entries, plan), i, j),
    ensures
        depends(dependency_map(entries), plan[i], plan[j]),
    decreases i,
{
    let map = dependency_map(entries);
    let deps = plan_deps(entries, plan);
    let k = choose|k: int|
        0 <= k < deps[i].len() && (#[trigger] deps[i][k] == j || (0 <= deps[i][k] < i && needs(
            deps,
            deps[i][k],
            j,
        )));
    law_plan_is_closed_and_ordered(entries, targets);
    assert(map.dom().contains(plan[i]));
    lemma_recorded_deps(entries, plan[i]);
    lemma_listed_places(entries, targets, plan, i, k);
    let d = deps[i][k];
    if d == j {
        lemma_reaches_itself(map, plan[j]);
    } else {
        lemma_needs_depends(entries, targets, plan, d, j);
        lemma_depends_reaches(map, plan[d], plan[j]);
    }
    lemma_step(map, plan[i], plan[d], plan[j]);
}

proof fn lemma_chain_needs(
    entries: Seq<EntrySummaryView>,
    targets: Seq<Seq<char>>,
    plan: Seq<Seq<char>>,
    chain: Seq<Seq<char>>,
    i: int,
    j: int,
)
    requires
        build_plan(entries, targets) == Ok::<Seq<Seq<char>>, ErrorView>(plan),
        0 <= i < plan.len(),
        0 <= j < plan.len(),
        leads(dependency_map(entries), chain, plan[i], plan[j]),
        chain.len() > 1,
    ensures
        needs(plan_deps(entries, plan), i, j),
    decreases chain.len(),
{
    let map = dependency_map(entries);
    let deps = plan_deps(entries, plan);
    law_plan_is_closed_and_ordered(entries, targets);
    assert(lists(map, chain[0], chain[0int + 1]));
    let k = map[plan[i]].index_of(chain[1]);
    lemma_listed_places(entries, targets, plan, i, k);
    let d = deps[i][k];
    assert(plan[d] == chain[1]);
    if chain.len() == 2 {
        assert(d == j);
    } else {
        let rest = chain.skip(1);
        assert forall|t: int| 0 <= t < rest.len() - 1 implies lists(
            map,
            #[trigger] rest[t],
            rest[t + 1],
        ) by {
            assert(lists(map, chain[t + 1], chain[t + 1 + 1]));
        }
        assert(leads(map, rest, plan[d], plan[j]));
        lemma_chain_needs(entries, targets, plan, rest, d, j);
    }
}

/// The node of a name links to the nodes of the names that its entry lists, in the same order.
pub proof fn law_nodes_link_to_what_they_list(
    entries: Seq<EntrySummaryView>,
    targets: Seq<Seq<char>>,
    plan: Seq<Seq<char>>,
    i: int,
)
    requires
        build_plan(entries, targets) == Ok::<Seq<Seq<char>>, ErrorView>(plan),
        0 <= i < plan.len(),
    ensures
        ({
            let listed = recorded(entries)[plan[i]].config.depends_on;
            let links = plan_deps(entries, plan)[i];
            &&& links.len() == listed.len()
            &&& forall|k: int|
                0 <= k < links.len() ==> 0 <= #[trigger] links[k] < i && plan[links[k]]
                    == listed[k]
        }),
{
    let listed = recorded(entries)[plan[i]].config.depends_on;
    let links = plan_deps(entries, plan)[i];
    law_plan_is_closed_and_ordered(entries, targets);
    assert(dependency_map(entries).dom().contains(plan[i]));
    lemma_recorded_deps(entries, plan[i]);
    assert forall|k: int| 0 <= k < links.len() implies 0 <= #[trigger] links[k] < i
        && plan[links[k]] == listed[k] by {
        lemma_listed_places(entries, targets, plan, i, k);
    }
}

/// In a plan, one node needs another exactly if the entry of the one depends on that of the other,
/// directly or through others.
pub proof fn law_needs_is_dependence(
    entries: Seq<EntrySummaryView>,
    targets: Seq<Seq<char>>,
    plan: Seq<Seq<char>>,
    i: int,
    j: int,
)
    requires
        build_plan(entries, targets) == Ok::<Seq<Seq<char>>, ErrorView>(plan),
        0 <= i < plan.len(),
        0 <= j < plan.len(),
    ensures
        needs(plan_deps(entries, plan), i, j) <==> depends(
            dependency_map(entries),
            plan[i],
            plan[j],
        ),
{
    let map = dependency_map(entries);
    if needs(plan_deps(entries, plan), i, j) {
        lemma_needs_depends(entries, targets, plan, i, j);
    }
    if depends(map, plan[i], plan[j]) {
        let chain = choose|chain: Seq<Seq<char>>|
            #[trigger] leads(map, chain, plan[i], plan[j]) && chain.len() > 1;
        lemma_chain_needs(entries, targets, plan, chain, i, j);
    }
}

/// When an entry fails, exactly those entries are skipped that wait and depend on it, directly or
/// through others.
pub proof fn law_failure_skips_dependents(
    model: BuildModel,
    entries: Seq<EntrySummaryView>,
    targets: Seq<Seq<char>>,
    plan: Seq<Seq<char>>,
    node: int,
    i: int,
)
    requires
        is_build_of(model, entries, targets, plan),
        build_fits(model),
        0 <= node < plan.len(),
        model.states[node] == BuildNodeState::Running,
        0 <= i < plan.len(),
    ensures
        skipped_by(model, node).contains(i) <==> model.states[i] == BuildNodeState::Pending
            && depends(dependency_map(entries), plan[i], plan[node]),
{
    law_failure_skips_what_needs_it(model, node);
    law_needs_is_dependence(entries, targets, plan, i, node);
}

/// At any time, exactly those entries are skipped that depend on one that failed.
pub proof fn law_skipped_iff_depends_on_failed(
    model: BuildModel,
    entries: Seq<EntrySummaryView>,
    targets: Seq<Seq<char>>,
    plan: Seq<Seq<char>>,
    i: int,
)
    requires
        is_build_of(model, entries, targets, plan),
        build_fits(model),
        0 <= i < plan.len(),
    ensures
        model.states[i] == BuildNodeState::Skipped <==> exists|j: int|
            0 <= j < plan.len() && #[trigger] depends(dependency_map(entries), plan[i], plan[j])
                && model.states[j] == BuildNodeState::Failed,
{
    law_skipped_iff_needs_failed(model, i);
    if model.states[i] == BuildNodeState::Skipped {
        let j = choose|j: int| #[trigger]
            needs(model.deps, i, j) && model.states[j] == BuildNodeState::Failed;
        lemma_needs_in_range(model.deps, i, j);
        law_needs_is_dependence(entries, targets, plan, i, j);
    }
    if exists|j: int|
        0 <= j < plan.len() && #[trigger] depends(dependency_map(entries), plan[i], plan[j])
            && model.states[j] == BuildNodeState::Failed {
        let j = choose|j: int|
            0 <= j < plan.len() && #[trigger] depends(dependency_map(entries), plan[i], plan[j])
                && model.states[j] == BuildNodeState::Failed;
        law_needs_is_dependence(entries, targets, plan, i, j);
    }
}

/// Whatever a started entry depends on, directly or through others, is part of the build and built.
pub proof fn law_started_has_dependencies_built(
    model: BuildModel,
    entries: Seq<EntrySummaryView>,
    targets: Seq<Seq<char>>,
    plan: Seq<Seq<char>>,
    i: int,
    name: Seq<char>,
)
    requires
        is_build_of(model, entries, targets, plan),
        build_fits(model),
        0 <= i < plan.len(),
        has_started(model.states[i]),
        depends(dependency_map(entries), plan[i], name),
    ensures
        plan.contains(name),
        model.states[plan.index_of(name)] == BuildNodeState::Succeeded,
{
    let map = dependency_map(entries);
    law_plan_is_closed_and_ordered(entries, targets);
    let chain = choose|chain: Seq<Seq<char>>|
        #[trigger] leads(map, chain, plan[i], name) && chain.len() > 1;
    assert(chain[0] == plan[i]);
    lemma_chain_in_plan(map, plan, chain, chain.len() - 1);
    let j = plan.index_of(name);
    law_needs_is_dependence(entries, targets, plan, i, j);
    lemma_started_needs_built(model, i, j);
}

} // verus!
