//! In which order a build takes its entries in.

use vstd::prelude::*;

use crate::entry::EntrySummaryView;
use crate::error::ErrorView;
use crate::plan::{
    all_visited, build_plan, dependency_map, lemma_dependency_map_finite, lemma_fewer_left,
    lemma_latest, lemma_unknown, recorded, visited,
};
use crate::plan_laws::{law_plan_is_closed_and_ordered, lemma_reaches_itself, wanted};

verus! {

/// A name stands for the last entry that has it, with that entry's dependencies, and for nothing if
/// no entry has it.
pub proof fn law_last_entry_counts(entries: Seq<EntrySummaryView>, name: Seq<char>, i: int)
    ensures
        0 <= i < entries.len() && entries[i].config.name == name && (forall|j: int|
            i < j < entries.len() ==> (#[trigger] entries[j]).config.name != name) ==> {
            &&& recorded(entries).dom().contains(name)
            &&& recorded(entries)[name] == entries[i]
            &&& dependency_map(entries).dom().contains(name)
            &&& dependency_map(entries)[name] == entries[i].config.depends_on
        },
        (forall|j: int| 0 <= j < entries.len() ==> (#[trigger] entries[j]).config.name != name)
            ==> !recorded(entries).dom().contains(name) && !dependency_map(entries).dom().contains(
            name,
        ),
{
    if 0 <= i < entries.len() && entries[i].config.name == name && (forall|j: int|
        i < j < entries.len() ==> (#[trigger] entries[j]).config.name != name) {
        lemma_latest(entries, name, i);
    }
    if forall|j: int| 0 <= j < entries.len() ==> (#[trigger] entries[j]).config.name != name {
        lemma_unknown(entries, name);
    }
}

/// In a plan, what the entry of a name depends on stands before it, and every target is in it.
pub proof fn law_dependencies_are_built_first(
    entries: Seq<EntrySummaryView>,
    targets: Seq<Seq<char>>,
    plan: Seq<Seq<char>>,
    i: int,
    k: int,
    d: int,
)
    requires
        build_plan(entries, targets) == Ok::<Seq<Seq<char>>, ErrorView>(plan),
        0 <= i < entries.len(),
        forall|j: int|
            i < j < entries.len() ==> (#[trigger] entries[j]).config.name
                != entries[i].config.name,
        0 <= k < plan.len(),
        plan[k] == entries[i].config.name,
        0 <= d < entries[i].config.depends_on.len(),
    ensures
        exists|p: int| 0 <= p < k && #[trigger] plan[p] == entries[i].config.depends_on[d],
        forall|t: int| 0 <= t < targets.len() ==> plan.contains(#[trigger] targets[t]),
{
    let map = dependency_map(entries);
    law_plan_is_closed_and_ordered(entries, targets);
    law_last_entry_counts(entries, plan[k], i);
    let name = entries[i].config.depends_on[d];
    assert(map[plan[k]].contains(name));
    let p = plan.take(k).index_of(name);
    assert(plan[p] == name);
    assert forall|t: int| 0 <= t < targets.len() implies plan.contains(#[trigger] targets[t]) by {
        lemma_reaches_itself(map, targets[t]);
        assert(wanted(map, targets, targets[t]));
    }
}

/// Names asked for in two parts are planned in two parts.
proof fn lemma_all_visited_in_parts(
    map: Map<Seq<char>, Seq<Seq<char>>>,
    a: Seq<Seq<char>>,
    b: Seq<Seq<char>>,
    visiting: Set<Seq<char>>,
    plan: Seq<Seq<char>>,
)
    requires
        map.dom().finite(),
    ensures
        all_visited(map, a + b, visiting, plan) == (match all_visited(map, a, visiting, plan) {
            Ok(longer) => all_visited(map, b, visiting, longer),
            Err(e) => Err(e),
        }),
    decreases b.len(),
{
    if b.len() == 0 {
        assert(a + b =~= a);
    } else {
        assert((a + b).drop_last() =~= a + b.drop_last());
        assert((a + b).last() == b.last());
        lemma_all_visited_in_parts(map, a, b.drop_last(), visiting, plan);
    }
}

/// What succeeds while some names wait succeeds in the same way while fewer do.
proof fn lemma_fewer_waiting(
    map: Map<Seq<char>, Seq<Seq<char>>>,
    name: Seq<char>,
    more: Set<Seq<char>>,
    fewer: Set<Seq<char>>,
    plan: Seq<Seq<char>>,
)
    requires
        map.dom().finite(),
        fewer.subset_of(more),
        visited(map, name, more, plan) is Ok,
    ensures
        visited(map, name, fewer, plan) == visited(map, name, more, plan),
    decreases map.dom().difference(more).len(), 0nat,
{
    if !plan.contains(name) {
        lemma_fewer_left(map.dom(), more, name);
        lemma_fewer_left(map.dom(), fewer, name);
        lemma_all_fewer_waiting(map, map[name], more.insert(name), fewer.insert(name), plan);
    }
}

proof fn lemma_all_fewer_waiting(
    map: Map<Seq<char>, Seq<Seq<char>>>,
    names: Seq<Seq<char>>,
    more: Set<Seq<char>>,
    fewer: Set<Seq<char>>,
    plan: Seq<Seq<char>>,
)
    requires
        map.dom().finite(),
        fewer.subset_of(more),
        all_visited(map, names, more, plan) is Ok,
    ensures
        all_visited(map, names, fewer, plan) == all_visited(map, names, more, plan),
    decreases map.dom().difference(more).len(), names.len(),
{
    if names.len() > 0 {
        let front = names.drop_last();
        lemma_all_fewer_waiting(map, front, more, fewer, plan);
        if let Ok(longer) = all_visited(map, front, more, plan) {
            lemma_fewer_waiting(map, names.last(), more, fewer, longer);
        }
    }
}

/// How a plan comes about: without targets it is empty. A further target changes nothing if it is
/// planned already. Otherwise it comes last, right after what its own dependencies, asked for in
/// its place and in the order in which it lists them, add to the plan. A plan that fails still
/// fails in the same way with further targets.
pub proof fn law_plan_follows_the_targets(
    entries: Seq<EntrySummaryView>,
    targets: Seq<Seq<char>>,
    target: Seq<char>,
)
    ensures
        build_plan(entries, Seq::empty()) == Ok::<Seq<Seq<char>>, ErrorView>(Seq::empty()),
        build_plan(entries, targets) is Err ==> build_plan(entries, targets.push(target))
            == build_plan(entries, targets),
        build_plan(entries, targets) matches Ok(plan) ==> {
            &&& plan.contains(target) ==> build_plan(entries, targets.push(target)) == build_plan(
                entries,
                targets,
            )
            &&& !plan.contains(target) ==> (build_plan(entries, targets.push(target)) matches Ok(
                longer,
            ) ==> {
                &&& longer.len() > 0
                &&& longer.last() == target
                &&& build_plan(entries, targets + dependency_map(entries)[target]) == Ok::<
                    Seq<Seq<char>>,
                    ErrorView,
                >(longer.drop_last())
            })
        },
{
    let map = dependency_map(entries);
    lemma_dependency_map_finite(entries);
    let none = Set::<Seq<char>>::empty();
    let start = Seq::<Seq<char>>::empty();
    assert(targets.push(target).drop_last() =~= targets);
    assert(targets.push(target).last() == target);
    if let Ok(plan) = build_plan(entries, targets) {
        if !plan.contains(target) {
            if let Ok(longer) = build_plan(entries, targets.push(target)) {
                let deps = map[target];
                let waiting = none.insert(target);
                assert(visited(map, target, none, plan) == Ok::<Seq<Seq<char>>, ErrorView>(longer));
                lemma_fewer_left(map.dom(), none, target);
                assert(visited(map, target, none, plan) == (match all_visited(
                    map,
                    deps,
                    waiting,
                    plan,
                ) {
                    Ok(inner) => Ok(inner.push(target)),
                    Err(e) => Err(e),
                }));
                let inner = all_visited(map, deps, waiting, plan)->Ok_0;
                assert(longer == inner.push(target));
                lemma_all_fewer_waiting(map, deps, waiting, none, plan);
                lemma_all_visited_in_parts(map, targets, deps, none, start);
                assert(longer.drop_last() =~= inner);
            }
        }
    }
}

/// What succeeds without ever planning a name succeeds in the same way while that name waits.
proof fn lemma_one_more_waiting(
    map: Map<Seq<char>, Seq<Seq<char>>>,
    name: Seq<char>,
    waiting: Set<Seq<char>>,
    x: Seq<char>,
    plan: Seq<Seq<char>>,
)
    requires
        map.dom().finite(),
        visited(map, name, waiting, plan) is Ok,
        !visited(map, name, waiting, plan)->Ok_0.contains(x),
    ensures
        visited(map, name, waiting.insert(x), plan) == visited(map, name, waiting, plan),
        !plan.contains(x),
    decreases map.dom().difference(waiting).len(), 0nat,
{
    if !plan.contains(name) {
        let longer = visited(map, name, waiting, plan)->Ok_0;
        lemma_fewer_left(map.dom(), waiting, name);
        let inner = all_visited(map, map[name], waiting.insert(name), plan)->Ok_0;
        assert(longer == inner.push(name));
        assert(longer[inner.len() as int] == name);
        assert(name != x);
        assert(!inner.contains(x)) by {
            if inner.contains(x) {
                assert(longer[inner.index_of(x)] == x);
            }
        }
        lemma_all_one_more_waiting(map, map[name], waiting.insert(name), x, plan);
        assert(waiting.insert(name).insert(x) =~= waiting.insert(x).insert(name));
        lemma_fewer_left(map.dom(), waiting.insert(x), name);
    }
}

proof fn lemma_all_one_more_waiting(
    map: Map<Seq<char>, Seq<Seq<char>>>,
    names: Seq<Seq<char>>,
    waiting: Set<Seq<char>>,
    x: Seq<char>,
    plan: Seq<Seq<char>>,
)
    requires
        map.dom().finite(),
        all_visited(map, names, waiting, plan) is Ok,
        !all_visited(map, names, waiting, plan)->Ok_0.contains(x),
    ensures
        all_visited(map, names, waiting.insert(x), plan) == all_visited(map, names, waiting, plan),
        !plan.contains(x),
    decreases map.dom().difference(waiting).len(), names.len(),
{
    if names.len() > 0 {
        let front = names.drop_last();
        let longer = all_visited(map, front, waiting, plan)->Ok_0;
        lemma_one_more_waiting(map, names.last(), waiting, x, longer);
        lemma_all_one_more_waiting(map, front, waiting, x, plan);
    }
}

/// What is named where a plan fails. A target that is not recorded is named itself. Otherwise, if the
/// first `k` dependencies of the target can be planned without it, the next one decides: it is named
/// as leading back if it is the target, and as unknown if it is not recorded.
pub proof fn law_first_offender_is_named(
    entries: Seq<EntrySummaryView>,
    targets: Seq<Seq<char>>,
    target: Seq<char>,
    k: int,
)
    requires
        build_plan(entries, targets) is Ok,
        !build_plan(entries, targets)->Ok_0.contains(target),
    ensures
        ({
            let map = dependency_map(entries);
            let failed = build_plan(entries, targets.push(target));
            &&& !map.dom().contains(target) ==> failed == Err::<Seq<Seq<char>>, ErrorView>(
                ErrorView::UnknownEntry { name: target },
            )
            &&& map.dom().contains(target) && 0 <= k < map[target].len() ==> {
                let before = build_plan(entries, targets + map[target].take(k));
                let next = map[target][k];
                before is Ok && !before->Ok_0.contains(target) ==> {
                    &&& next == target ==> failed == Err::<Seq<Seq<char>>, ErrorView>(
                        ErrorView::DependencyCycle { name: target },
                    )
                    &&& !map.dom().contains(next) && !before->Ok_0.contains(next) ==> failed
                        == Err::<Seq<Seq<char>>, ErrorView>(ErrorView::UnknownEntry { name: next })
                }
            }
        }),
{
    let map = dependency_map(entries);
    lemma_dependency_map_finite(entries);
    let none = Set::<Seq<char>>::empty();
    let start = Seq::<Seq<char>>::empty();
    let plan = build_plan(entries, targets)->Ok_0;
    assert(targets.push(target).drop_last() =~= targets);
    assert(targets.push(target).last() == target);
    assert(build_plan(entries, targets.push(target)) == visited(map, target, none, plan));
    if map.dom().contains(target) && 0 <= k < map[target].len() {
        let deps = map[target];
        let waiting = none.insert(target);
        let before = build_plan(entries, targets + deps.take(k));
        let next = deps[k];
        if before is Ok && !before->Ok_0.contains(target) && (next == target || (!map.dom().contains(
            next,
        ) && !before->Ok_0.contains(next))) {
            lemma_all_visited_in_parts(map, targets, deps.take(k), none, start);
            lemma_all_one_more_waiting(map, deps.take(k), none, target, plan);
            lemma_fewer_left(map.dom(), none, target);
            let upto = deps.take(k + 1);
            assert(upto.drop_last() =~= deps.take(k));
            assert(upto.last() == next);
            assert(all_visited(map, upto, waiting, plan) == visited(
                map,
                next,
                waiting,
                before->Ok_0,
            ));
            assert(all_visited(map, upto, waiting, plan) is Err);
            assert(upto + deps.skip(k + 1) =~= deps);
            lemma_all_visited_in_parts(map, upto, deps.skip(k + 1), waiting, plan);
            assert(visited(map, target, none, plan) == (match all_visited(
                map,
                deps,
                waiting,
                plan,
            ) {
                Ok(inner) => Ok(inner.push(target)),
                Err(e) => Err(e),
            }));
        }
    }
}

} // verus!
