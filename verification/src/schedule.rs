//! The course of a build as a state machine: which nodes wait, run, are done or are blocked.

use vstd::prelude::*;

use crate::graph::{all_dependents, are_earlier, occurrences, BuildNodeState};

verus! {

/// The state of a build. Nodes are named by their position in the plan.
#[verifier::ext_equal]
pub struct BuildModel {
    /// What each node depends on.
    pub deps: Seq<Seq<int>>,
    /// How far each node has come.
    pub states: Seq<BuildNodeState>,
    /// How many dependencies each node waits for.
    pub remaining: Seq<int>,
    /// The nodes that can be started, in the order in which they will be.
    pub ready: Seq<int>,
    /// How many nodes run.
    pub running: int,
    /// How many nodes may run at once.
    pub max_jobs: int,
}

/// How many of the dependencies in `list` have not succeeded.
pub open spec fn unsatisfied(list: Seq<int>, states: Seq<BuildNodeState>) -> nat
    decreases list.len(),
{
    if list.len() == 0 {
        0
    } else {
        unsatisfied(list.drop_last(), states) + if states[list.last()]
            == BuildNodeState::Succeeded {
            0nat
        } else {
            1nat
        }
    }
}

/// How many nodes are in state `state`.
pub open spec fn count_in(states: Seq<BuildNodeState>, state: BuildNodeState) -> nat
    decreases states.len(),
{
    if states.len() == 0 {
        0
    } else {
        count_in(states.drop_last(), state) + if states.last() == state {
            1nat
        } else {
            0nat
        }
    }
}

/// The numbers below `n` that satisfy `pick`, in order.
pub open spec fn ascending(n: nat, pick: spec_fn(int) -> bool) -> Seq<int>
    decreases n,
{
    if n == 0 {
        Seq::empty()
    } else {
        let less = ascending((n - 1) as nat, pick);
        if pick(n - 1) {
            less.push(n - 1)
        } else {
            less
        }
    }
}

/// Node `i` depends on node `j`, directly or through others.
pub open spec fn needs(deps: Seq<Seq<int>>, i: int, j: int) -> bool
    decreases i,
{
    exists|k: int|
        0 <= k < deps[i].len() && (#[trigger] deps[i][k] == j || (0 <= deps[i][k] < i && needs(
            deps,
            deps[i][k],
            j,
        )))
}

/// The node has been started.
pub open spec fn has_started(state: BuildNodeState) -> bool {
    state == BuildNodeState::Running || state == BuildNodeState::Succeeded || state
        == BuildNodeState::Failed
}

/// The node was not built: its build failed, or it was skipped.
pub open spec fn is_blocked(state: BuildNodeState) -> bool {
    state == BuildNodeState::Failed || state == BuildNodeState::Skipped
}

/// What holds of one node.
pub open spec fn node_fits(model: BuildModel, i: int) -> bool {
    let list = model.deps[i];
    let state = model.states[i];
    // What was started had all of its dependencies built.
    &&& has_started(state) ==> forall|k: int|
        0 <= k < list.len() ==> model.states[#[trigger] list[k]] == BuildNodeState::Succeeded
    // What waits has no blocked dependency, and counts those that are not built.
    &&& state == BuildNodeState::Pending ==> {
        &&& forall|k: int|
            0 <= k < list.len() ==> !is_blocked(model.states[#[trigger] list[k]])
        &&& model.remaining[i] == unsatisfied(list, model.states)
    }
    // What was skipped has a blocked dependency.
    &&& state == BuildNodeState::Skipped ==> exists|k: int|
        0 <= k < list.len() && is_blocked(model.states[#[trigger] list[k]])
}

/// What holds of a build at any time.
pub open spec fn build_fits(model: BuildModel) -> bool {
    &&& are_earlier(model.deps)
    &&& model.states.len() == model.deps.len()
    &&& model.remaining.len() == model.deps.len()
    &&& forall|i: int| 0 <= i < model.deps.len() ==> #[trigger] node_fits(model, i)
    // Ready is what waits for nothing.
    &&& model.ready.no_duplicates()
    &&& forall|i: int| #[trigger]
        model.ready.contains(i) <==> 0 <= i < model.deps.len() && model.states[i]
            == BuildNodeState::Pending && model.remaining[i] == 0
    &&& model.running == count_in(model.states, BuildNodeState::Running)
    &&& 0 <= model.running <= model.max_jobs
    &&& 0 < model.max_jobs
}

/// A build before anything was started.
pub open spec fn fresh(deps: Seq<Seq<int>>, max_jobs: int) -> BuildModel {
    BuildModel {
        deps,
        states: Seq::new(deps.len(), |i: int| BuildNodeState::Pending),
        remaining: Seq::new(deps.len(), |i: int| deps[i].len() as int),
        ready: ascending(deps.len(), |i: int| deps[i].len() == 0),
        running: 0,
        max_jobs,
    }
}

/// How many nodes can be started now.
pub open spec fn free_jobs(model: BuildModel) -> int {
    if model.ready.len() <= model.max_jobs - model.running {
        model.ready.len() as int
    } else {
        model.max_jobs - model.running
    }
}

/// The build once the first `k` nodes that are ready were started.
pub open spec fn started(model: BuildModel, k: int) -> BuildModel {
    BuildModel {
        states: Seq::new(
            model.states.len(),
            |i: int|
                if model.ready.take(k).contains(i) {
                    BuildNodeState::Running
                } else {
                    model.states[i]
                },
        ),
        ready: model.ready.skip(k),
        running: model.running + k,
        ..model
    }
}

/// The nodes that are started next: the first that are ready, as many as may run.
pub open spec fn next_started(model: BuildModel) -> Seq<int> {
    model.ready.take(free_jobs(model))
}

/// The build once they were started.
pub open spec fn with_started(model: BuildModel) -> BuildModel {
    started(model, free_jobs(model))
}

/// The build once `node` succeeded: what waits for it waits for one dependency less, and what
/// then waits for nothing becomes ready, in the order of the plan.
pub open spec fn with_success(model: BuildModel, node: int) -> BuildModel {
    let states = model.states.update(node, BuildNodeState::Succeeded);
    let remaining = Seq::new(
        model.remaining.len(),
        |i: int|
            if states[i] == BuildNodeState::Pending {
                model.remaining[i] - occurrences(model.deps[i], node)
            } else {
                model.remaining[i]
            },
    );
    BuildModel {
        states,
        remaining,
        ready: model.ready + ascending(
            model.deps.len(),
            |i: int|
                states[i] == BuildNodeState::Pending && model.deps[i].contains(node)
                    && remaining[i] == 0,
        ),
        running: model.running - 1,
        ..model
    }
}

/// The states once `node` failed: everything that waits and depends on it is skipped.
pub open spec fn states_after_failure(model: BuildModel, node: int) -> Seq<BuildNodeState> {
    Seq::new(
        model.states.len(),
        |i: int|
            if i == node {
                BuildNodeState::Failed
            } else if model.states[i] == BuildNodeState::Pending && needs(model.deps, i, node) {
                BuildNodeState::Skipped
            } else {
                model.states[i]
            },
    )
}

/// The build once `node` failed.
pub open spec fn with_failure(model: BuildModel, node: int) -> BuildModel {
    let states = states_after_failure(model, node);
    BuildModel {
        states,
        ready: model.ready.filter(|i: int| states[i] == BuildNodeState::Pending),
        running: model.running - 1,
        ..model
    }
}

/// The states, and the nodes newly skipped in the order in which they are met, after the first
/// `k` dependents of node `j` were skipped, each one directly followed by its own dependents.
pub open spec fn skipping(
    dependents: Seq<Seq<int>>,
    j: int,
    k: nat,
    states: Seq<BuildNodeState>,
) -> (Seq<BuildNodeState>, Seq<int>)
    decreases dependents.len() - j, k,
{
    if k == 0 {
        (states, Seq::empty())
    } else {
        let (before, met) = skipping(dependents, j, (k - 1) as nat, states);
        let d = dependents[j][k - 1];
        if j < d < dependents.len() && before[d] == BuildNodeState::Pending {
            let (after, more) = skipping(
                dependents,
                d,
                dependents[d].len(),
                before.update(d, BuildNodeState::Skipped),
            );
            (after, met.push(d) + more)
        } else {
            (before, met)
        }
    }
}

/// The nodes that are skipped when `node` fails, in the order in which they are met.
pub open spec fn skipped_by(model: BuildModel, node: int) -> Seq<int> {
    let dependents = all_dependents(model.deps);
    skipping(
        dependents,
        node,
        dependents[node].len(),
        model.states.update(node, BuildNodeState::Failed),
    ).1
}

/// Nothing waits to be started and nothing runs.
pub open spec fn is_over(model: BuildModel) -> bool {
    model.ready.len() == 0 && model.running == 0
}

} // verus!
