//! What each step of a build changes, and what it leaves as it was.

use vstd::prelude::*;
use vstd::string::*;

use crate::build_laws::law_nodes_link_to_what_they_list;
use crate::build_run::BuildRun;
use crate::course_laws::{
    equals, law_all_free_jobs_are_used, law_build_begins, law_counts,
    law_failure_stops_what_needs_it, law_success_frees_what_waited, without,
};
use crate::entries::{begin_build, targets_of, BuildRequest};
use crate::entry::{records, EntrySummary};
use crate::error::{Error, ErrorView};
use crate::graph::{
    build_execution_graph, plan_deps, positions, BuildExecutionGraph, BuildNodeState,
};
use crate::order_laws::law_last_entry_counts;
use crate::path::shown;
use crate::plan::{build_plan, dependency_map, recorded, resolve_build_plan};
use crate::plan_laws::{law_plan_is_closed_and_ordered, lemma_reaches_itself, wanted};
use crate::progress::{build_jobs, job_count, take_result, BuildTaskResult};
use crate::report::duration_text;
use crate::schedule::{needs, skipped_by};
use crate::schedule_laws::law_failure_skips_what_needs_it;
use crate::script::BuildTaskOutcome;
use crate::text::texts;
use crate::wording_laws::{law_failure_is_told, law_first_line_of_failure, law_success_is_told};

verus! {

/// Starting gives out what is ready, from the front, until all jobs are taken or nothing is ready.
/// What is given out runs from then on, and nothing else changes.
pub proof fn law_what_is_started(run: &mut BuildRun, nodes: Vec<usize>)
    requires
        old(run).fits(),
        call_ensures(BuildRun::start_ready, (run,), nodes),
    ensures
        ({
            let (before, after) = (old(run).model(), final(run).model());
            &&& final(run).fits()
            &&& final(run).names() == old(run).names()
            &&& final(run).entries() == old(run).entries()
            &&& before.ready.len() == nodes@.len() + after.ready.len()
            &&& forall|i: int|
                0 <= i < nodes@.len() ==> before.ready[i] == #[trigger] nodes@[i] as int
            &&& after.ready == before.ready.skip(nodes@.len() as int)
            &&& after.running == before.running + nodes@.len()
            &&& after.running == after.max_jobs || after.ready.len() == 0
            &&& after.max_jobs == before.max_jobs
            &&& after.deps == before.deps
            &&& forall|i: int|
                0 <= i < before.states.len() ==> after.states[i] == (if exists|k: int|
                    0 <= k < nodes@.len() && #[trigger] nodes@[k] == i {
                    BuildNodeState::Running
                } else {
                    #[trigger] before.states[i]
                })
        }),
{
    let (before, after) = (old(run).model(), final(run).model());
    old(run).lemma_fits();
    law_all_free_jobs_are_used(before);
    let list = positions(nodes@);
    assert(list.len() == nodes@.len());
    assert(before.ready == list + after.ready);
    assert(before.ready.skip(nodes@.len() as int) =~= after.ready);
    assert forall|i: int| 0 <= i < nodes@.len() implies before.ready[i] == #[trigger] nodes@[i] as int by {
        assert(list[i] == nodes@[i] as int);
        assert(before.ready[i] == list[i]);
    }
    assert forall|i: int| 0 <= i < before.states.len() implies after.states[i] == (if exists|k: int|
        0 <= k < nodes@.len() && #[trigger] nodes@[k] == i {
        BuildNodeState::Running
    } else {
        #[trigger] before.states[i]
    }) by {
        if list.contains(i) {
            let k = list.index_of(i);
            assert(nodes@[k] == i);
        }
        if exists|k: int| 0 <= k < nodes@.len() && #[trigger] nodes@[k] == i {
            let k = choose|k: int| 0 <= k < nodes@.len() && #[trigger] nodes@[k] == i;
            assert(list[k] == i);
        }
    }
}

/// A node that succeeds is done. Behind what is ready come those that wait for nothing else any more.
/// Nothing else changes.
pub proof fn law_what_success_changes(run: &mut BuildRun, node: usize)
    requires
        old(run).fits(),
        node < old(run).names().len(),
        old(run).model().states[node as int] == BuildNodeState::Running,
        call_ensures(BuildRun::task_succeeded, (run, node), ()),
    ensures
        ({
            let (before, after) = (old(run).model(), final(run).model());
            let new = after.ready.skip(before.ready.len() as int);
            &&& final(run).fits()
            &&& final(run).names() == old(run).names()
            &&& final(run).entries() == old(run).entries()
            &&& after.states == before.states.update(node as int, BuildNodeState::Succeeded)
            &&& after.running == before.running - 1
            &&& after.max_jobs == before.max_jobs
            &&& after.deps == before.deps
            &&& after.ready == before.ready + new
            &&& forall|i: int| #[trigger]
                new.contains(i) <==> {
                    &&& 0 <= i < before.deps.len()
                    &&& before.states[i] == BuildNodeState::Pending
                    &&& before.deps[i].contains(node as int)
                    &&& forall|k: int|
                        0 <= k < before.deps[i].len() && before.deps[i][k] != node
                            ==> before.states[#[trigger] before.deps[i][k]]
                            == BuildNodeState::Succeeded
                }
        }),
{
    old(run).lemma_fits();
    law_success_frees_what_waited(old(run).model(), node as int);
}

/// A node that fails takes with it exactly what waits and needs it. Those are given out, each once,
/// and nothing else changes.
pub proof fn law_what_failure_changes(run: &mut BuildRun, node: usize, skipped: Vec<usize>, i: int)
    requires
        old(run).fits(),
        node < old(run).names().len(),
        old(run).model().states[node as int] == BuildNodeState::Running,
        call_ensures(BuildRun::task_failed, (run, node), skipped),
    ensures
        ({
            let (before, after) = (old(run).model(), final(run).model());
            let met = 0 <= i < before.states.len() && before.states[i] == BuildNodeState::Pending
                && needs(before.deps, i, node as int);
            &&& final(run).fits()
            &&& final(run).names() == old(run).names()
            &&& final(run).entries() == old(run).entries()
            &&& (exists|k: int| 0 <= k < skipped@.len() && #[trigger] skipped@[k] == i) <==> met
            &&& skipped@.no_duplicates()
            &&& after.states.len() == before.states.len()
            &&& after.states[node as int] == BuildNodeState::Failed
            &&& 0 <= i < before.states.len() && i != node ==> after.states[i] == (if met {
                BuildNodeState::Skipped
            } else {
                before.states[i]
            })
            &&& after.ready == before.ready.filter(without(before.deps, node as int))
            &&& after.running == before.running - 1
            &&& after.max_jobs == before.max_jobs
            &&& after.deps == before.deps
        }),
{
    let before = old(run).model();
    old(run).lemma_fits();
    law_failure_stops_what_needs_it(before, node as int);
    law_failure_skips_what_needs_it(before, node as int);
    let list = positions(skipped@);
    assert(list.len() == skipped@.len());
    if list.contains(i) {
        let k = list.index_of(i);
        assert(skipped@[k] == i);
    }
    if exists|k: int| 0 <= k < skipped@.len() && #[trigger] skipped@[k] == i {
        let k = choose|k: int| 0 <= k < skipped@.len() && #[trigger] skipped@[k] == i;
        assert(list[k] == i);
    }
    assert forall|a: int, b: int|
        0 <= a < skipped@.len() && 0 <= b < skipped@.len() && a != b implies skipped@[a]
        != skipped@[b] by {
        assert(list[a] == skipped@[a] as int && list[b] == skipped@[b] as int);
    }
}

/// What came of a node is told in lines and taken in as it is: success as success, failure as
/// failure.
pub proof fn law_what_a_result_changes(
    run: &mut BuildRun,
    result: &BuildTaskResult,
    lines: Vec<String>,
    k: int,
)
    requires
        old(run).fits(),
        result.node < old(run).names().len(),
        old(run).model().states[result.node as int] == BuildNodeState::Running,
        call_ensures(take_result, (run, result), lines),
    ensures
        ({
            let (before, after) = (old(run).model(), final(run).model());
            let name = old(run).names()[result.node as int];
            &&& final(run).fits()
            &&& final(run).names() == old(run).names()
            &&& final(run).entries() == old(run).entries()
            &&& result.outcome is Succeeded ==> {
                &&& lines@.len() == 1
                &&& lines@[0]@ == "[done] "@ + name + " "@ + duration_text(
                    result.seconds,
                    result.nanos,
                )
                &&& after.states == before.states.update(
                    result.node as int,
                    BuildNodeState::Succeeded,
                )
            }
            &&& result.outcome matches BuildTaskOutcome::Failed(message) ==> {
                let skipped = skipped_by(before, result.node as int);
                &&& lines@.len() == 1 + skipped.len()
                &&& lines@[0]@ == "[fail] "@ + name + " "@ + message@ + "; log="@ + shown(
                    result.log_path@,
                )
                &&& 0 <= k < skipped.len() ==> lines@[k + 1]@ == "[skip] "@
                    + old(run).names()[skipped[k]] + " blocked by `"@ + name + "`"@
                &&& after.states[result.node as int] == BuildNodeState::Failed
            }
        }),
{
    let before = old(run).model();
    let names = old(run).names();
    old(run).lemma_fits();
    let told = texts(lines@);
    assert(told.len() == lines@.len());
    assert forall|i: int| 0 <= i < lines@.len() implies (#[trigger] lines@[i])@ == told[i] by {}
    match result.outcome {
        BuildTaskOutcome::Succeeded => {
            law_success_is_told(before, names, *result);
            law_success_frees_what_waited(before, result.node as int);
        },
        BuildTaskOutcome::Failed(message) => {
            law_first_line_of_failure(before, names, *result, message);
            law_failure_stops_what_needs_it(before, result.node as int);
            if 0 <= k < skipped_by(before, result.node as int).len() {
                law_failure_is_told(before, names, *result, message, k);
            }
        },
    }
}

/// What a build tells of itself is what it is.
pub proof fn law_what_a_build_tells(
    run: &BuildRun,
    node: usize,
    state: BuildNodeState,
    over: bool,
    len: usize,
    running: bool,
    name: &String,
    entry: &EntrySummary,
    count: usize,
)
    requires
        run.fits(),
        node < run.names().len(),
        call_ensures(BuildRun::is_over, (run,), over),
        call_ensures(BuildRun::len, (run,), len),
        call_ensures(BuildRun::is_running, (run, node), running),
        call_ensures(BuildRun::name, (run, node), name),
        call_ensures(BuildRun::entry, (run, node), entry),
        call_ensures(BuildRun::count, (run, state), count),
    ensures
        over <==> run.model().ready.len() == 0 && run.model().running == 0,
        len == run.names().len(),
        running <==> run.model().states[node as int] == BuildNodeState::Running,
        name@ == run.names()[node as int],
        entry@ == run.entries()[node as int],
        count == run.model().states.filter(equals(state)).len(),
{
    law_counts(Seq::empty(), 0, run.model().states, state);
}

/// A build begins with nothing running and everything waiting. It builds the entries that stand last
/// among those of their names, dependencies before what depends on them, and all that was asked for.
pub proof fn law_what_a_build_begins_with(
    request: &BuildRequest,
    entries: &Vec<EntrySummary>,
    max_jobs: usize,
    run: BuildRun,
    i: int,
    last: int,
)
    requires
        call_ensures(
            begin_build,
            (request, entries, max_jobs),
            Ok::<Option<BuildRun>, Error>(Some(run)),
        ),
        0 <= i < run.names().len(),
        0 <= last < entries@.len(),
        entries@[last].config.name@ == run.names()[i],
        forall|j: int|
            last < j < entries@.len() ==> (#[trigger] entries@[j]).config.name@ != run.names()[i],
    ensures
        ({
            let model = run.model();
            let listed = entries@[last].config.depends_on@;
            &&& run.fits()
            &&& run.entries()[i] == entries@[last]@
            &&& model.running == 0
            &&& model.max_jobs == max_jobs
            &&& model.states[i] == BuildNodeState::Pending
            &&& model.deps[i].len() == listed.len()
            &&& forall|k: int|
                0 <= k < listed.len() ==> 0 <= #[trigger] model.deps[i][k] < i
                    && run.names()[model.deps[i][k]] == listed[k]@
            &&& model.ready.contains(i) <==> listed.len() == 0
            &&& forall|t: Seq<char>| #[trigger]
                targets_of(request@, records(entries@)).contains(t) ==> run.names().contains(t)
        }),
{
    let all = records(entries@);
    let plan = run.names();
    let targets = targets_of(request@, all);
    assert(all[last] == entries@[last]@);
    assert forall|j: int| last < j < all.len() implies (#[trigger] all[j]).config.name
        != plan[i] by {
        assert(all[j] == entries@[j]@);
    }
    law_last_entry_counts(all, plan[i], last);
    law_nodes_link_to_what_they_list(all, targets, plan, i);
    law_build_begins(plan_deps(all, plan), max_jobs as int);
    law_plan_is_closed_and_ordered(all, targets);
    let listed = entries@[last].config.depends_on@;
    assert(recorded(all)[plan[i]].config.depends_on == texts(listed));
    assert(texts(listed).len() == listed.len());
    let deps = run.model().deps[i];
    assert forall|k: int| 0 <= k < listed.len() implies 0 <= #[trigger] deps[k] < i
        && plan[deps[k]] == listed[k]@ by {
        assert(texts(listed)[k] == listed[k]@);
    }
    assert forall|t: Seq<char>| #[trigger] targets.contains(t) implies plan.contains(t) by {
        let p = targets.index_of(t);
        let map = dependency_map(all);
        lemma_reaches_itself(map, targets[p]);
        assert(wanted(map, targets, targets[p]));
    }
}

/// A plan is made exactly where `build_plan` finds one, and is that one.
pub proof fn law_what_is_planned(
    entries: &[EntrySummary],
    targets: &[String],
    plan: Result<Vec<String>, Error>,
    graph: Result<BuildExecutionGraph, Error>,
)
    requires
        call_ensures(resolve_build_plan, (entries, targets), plan),
        call_ensures(build_execution_graph, (entries, targets), graph),
    ensures
        plan is Ok <==> build_plan(records(entries@), texts(targets@)) is Ok,
        graph is Ok <==> plan is Ok,
        plan matches Ok(p) ==> {
            &&& Ok::<Seq<Seq<char>>, ErrorView>(texts(p@)) == build_plan(
                records(entries@),
                texts(targets@),
            )
            &&& graph->Ok_0.names() == texts(p@)
            &&& graph->Ok_0.states().len() == p@.len()
            &&& forall|i: int|
                0 <= i < p@.len() ==> #[trigger] graph->Ok_0.states()[i] == BuildNodeState::Pending
            &&& forall|i: int|
                0 <= i < p@.len() ==> #[trigger] graph->Ok_0.remaining()[i]
                    == graph->Ok_0.deps()[i].len()
            &&& forall|i: int|
                0 <= i < p@.len() ==> #[trigger] graph->Ok_0.entries()[i] == recorded(
                    records(entries@),
                )[p@[i]@]
        },
        plan matches Err(e) ==> graph->Err_0@ == e@,
{
    if let Ok(p) = plan {
        let list = texts(p@);
        assert(list.len() == p@.len());
        assert forall|i: int| 0 <= i < p@.len() implies #[trigger] graph->Ok_0.entries()[i]
            == recorded(records(entries@))[p@[i]@] by {
            assert(list[i] == p@[i]@);
        }
    }
}

/// At least one job runs at a time, and as many as the variable or the machine says.
pub proof fn law_how_many_jobs(variable: Option<String>, parallelism: Option<usize>, jobs: usize)
    requires
        parallelism matches Some(n) ==> n > 0,
        call_ensures(build_jobs, (variable, parallelism), jobs),
    ensures
        jobs > 0,
        jobs == job_count(variable, parallelism),
        variable is None && parallelism is None ==> jobs == 1,
        variable is None && parallelism is Some ==> jobs == parallelism->0,
{
}

} // verus!
