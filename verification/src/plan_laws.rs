//! What holds of every build plan.

use vstd::prelude::*;

use crate::entry::EntrySummaryView;
use crate::error::ErrorView;
use crate::plan::{
    all_visited, build_plan, dependency_map, lemma_dependency_map_finite, lemma_fewer_left, visited,
};

verus! {

/// `name` lists `dependency`.
pub open spec fn lists(
    map: Map<Seq<char>, Seq<Seq<char>>>,
    name: Seq<char>,
    dependency: Seq<char>,
) -> bool {
    map.dom().contains(name) && map[name].contains(dependency)
}

/// Each name in the chain lists the one after it.
pub open spec fn is_chain(map: Map<Seq<char>, Seq<Seq<char>>>, chain: Seq<Seq<char>>) -> bool {
    &&& chain.len() > 0
    &&& forall|i: int|
        0 <= i < chain.len() - 1 ==> lists(map, #[trigger] chain[i], chain[i + 1])
}

/// A chain leads from one name to another.
pub open spec fn leads(
    map: Map<Seq<char>, Seq<Seq<char>>>,
    chain: Seq<Seq<char>>,
    from: Seq<char>,
    to: Seq<char>,
) -> bool {
    is_chain(map, chain) && chain.first() == from && chain.last() == to
}

/// `to` is `from`, or one of its dependencies, or one of theirs, and so on.
pub open spec fn reaches(
    map: Map<Seq<char>, Seq<Seq<char>>>,
    from: Seq<char>,
    to: Seq<char>,
) -> bool {
    exists|chain: Seq<Seq<char>>| leads(map, chain, from, to)
}

/// `to` is a dependency of `from`, direct or not.
pub open spec fn depends(
    map: Map<Seq<char>, Seq<Seq<char>>>,
    from: Seq<char>,
    to: Seq<char>,
) -> bool {
    exists|chain: Seq<Seq<char>>| #[trigger] leads(map, chain, from, to) && chain.len() > 1
}

/// One of `targets` reaches `name`.
pub open spec fn wanted(
    map: Map<Seq<char>, Seq<Seq<char>>>,
    targets: Seq<Seq<char>>,
    name: Seq<char>,
) -> bool {
    exists|t: int| 0 <= t < targets.len() && reaches(map, #[trigger] targets[t], name)
}

/// Nothing stands twice in the plan, all of it is recorded, and what a name lists stands before it.
pub open spec fn is_ordered(
    map: Map<Seq<char>, Seq<Seq<char>>>,
    plan: Seq<Seq<char>>,
) -> bool {
    &&& plan.no_duplicates()
    &&& forall|i: int| 0 <= i < plan.len() ==> map.dom().contains(#[trigger] plan[i])
    &&& forall|i: int, d: Seq<char>|
        0 <= i < plan.len() && #[trigger] map[plan[i]].contains(d) ==> plan.take(i).contains(d)
}

/// A name reaches itself.
pub proof fn lemma_reaches_itself(map: Map<Seq<char>, Seq<Seq<char>>>, name: Seq<char>)
    ensures
        reaches(map, name, name),
{
    let chain = seq![name];
    assert(leads(map, chain, name, name));
}

/// One step before a chain makes a chain.
pub proof fn lemma_step(
    map: Map<Seq<char>, Seq<Seq<char>>>,
    name: Seq<char>,
    dependency: Seq<char>,
    to: Seq<char>,
)
    requires
        lists(map, name, dependency),
        reaches(map, dependency, to),
    ensures
        depends(map, name, to),
        reaches(map, name, to),
{
    let rest = choose|chain: Seq<Seq<char>>| leads(map, chain, dependency, to);
    let chain = seq![name] + rest;
    assert forall|i: int| 0 <= i < chain.len() - 1 implies lists(
        map,
        #[trigger] chain[i],
        chain[i + 1],
    ) by {
        if i > 0 {
            assert(chain[i] == rest[i - 1] && chain[i + 1] == rest[i]);
        }
    }
    assert(chain.last() == rest.last());
    assert(leads(map, chain, name, to));
}

/// One step after a chain makes a chain.
proof fn lemma_step_after(
    map: Map<Seq<char>, Seq<Seq<char>>>,
    from: Seq<char>,
    name: Seq<char>,
    dependency: Seq<char>,
)
    requires
        reaches(map, from, name),
        lists(map, name, dependency),
    ensures
        depends(map, from, dependency),
{
    let front = choose|chain: Seq<Seq<char>>| leads(map, chain, from, name);
    let chain = front.push(dependency);
    assert forall|i: int| 0 <= i < chain.len() - 1 implies lists(
        map,
        #[trigger] chain[i],
        chain[i + 1],
    ) by {
        if i < front.len() - 1 {
            assert(chain[i] == front[i] && chain[i + 1] == front[i + 1]);
        }
    }
    assert(leads(map, chain, from, dependency));
}

/// A name reaches what it depends on.
pub proof fn lemma_depends_reaches(
    map: Map<Seq<char>, Seq<Seq<char>>>,
    from: Seq<char>,
    to: Seq<char>,
)
    requires
        depends(map, from, to),
    ensures
        reaches(map, from, to),
{
    let chain = choose|chain: Seq<Seq<char>>|
        #[trigger] leads(map, chain, from, to) && chain.len() > 1;
    assert(leads(map, chain, from, to));
}

/// `longer` is `plan` with new names after it, each of which satisfies `new`.
pub open spec fn grown(
    plan: Seq<Seq<char>>,
    longer: Seq<Seq<char>>,
    new: spec_fn(Seq<char>) -> bool,
) -> bool {
    &&& plan.len() <= longer.len()
    &&& longer.take(plan.len() as int) == plan
    &&& forall|i: int| plan.len() <= i < longer.len() ==> new(#[trigger] longer[i])
}

proof fn lemma_contains_grown(
    plan: Seq<Seq<char>>,
    longer: Seq<Seq<char>>,
    new: spec_fn(Seq<char>) -> bool,
    name: Seq<char>,
)
    requires
        grown(plan, longer, new),
        plan.contains(name),
    ensures
        longer.contains(name),
{
    let i = plan.index_of(name);
    assert(longer.take(plan.len() as int)[i] == name);
    assert(longer[i] == name);
}

/// A visit that succeeds keeps the plan ordered and adds what the name reaches, the name included.
proof fn lemma_visited(
    map: Map<Seq<char>, Seq<Seq<char>>>,
    name: Seq<char>,
    visiting: Set<Seq<char>>,
    plan: Seq<Seq<char>>,
)
    requires
        map.dom().finite(),
        is_ordered(map, plan),
    ensures
        visited(map, name, visiting, plan) matches Ok(longer) ==> {
            &&& is_ordered(map, longer)
            &&& longer.contains(name)
            &&& grown(
                plan,
                longer,
                |n: Seq<char>| !visiting.contains(n) && reaches(map, name, n),
            )
        },
    decreases map.dom().difference(visiting).len(), 0nat,
{
    let new = |n: Seq<char>| !visiting.contains(n) && reaches(map, name, n);
    if plan.contains(name) {
        assert(plan.take(plan.len() as int) =~= plan);
    } else if !visiting.contains(name) && map.dom().contains(name) {
        lemma_fewer_left(map.dom(), visiting, name);
        let inner = visiting.insert(name);
        lemma_all_visited(map, map[name], inner, plan);
        if let Ok(longer) = all_visited(map, map[name], inner, plan) {
            let result = longer.push(name);
            let inner_new = |n: Seq<char>|
                !inner.contains(n) && wanted(map, map[name], n);
            lemma_reaches_itself(map, name);
            assert forall|i: int| plan.len() <= i < result.len() implies new(
                #[trigger] result[i],
            ) by {
                if i < longer.len() {
                    assert(inner_new(longer[i]));
                    let t = choose|t: int|
                        0 <= t < map[name].len() && reaches(map, #[trigger] map[name][t], longer[i]);
                    lemma_step(map, name, map[name][t], longer[i]);
                }
            }
            assert(result.take(plan.len() as int) =~= longer.take(plan.len() as int));
            assert(!longer.contains(name)) by {
                if longer.contains(name) {
                    let i = longer.index_of(name);
                    if i < plan.len() {
                        assert(longer.take(plan.len() as int)[i] == name);
                        assert(plan.contains(name));
                    } else {
                        assert(inner_new(longer[i]));
                    }
                }
            }
            assert(result.no_duplicates()) by {
                assert forall|i: int, j: int|
                    0 <= i < j < result.len() implies result[i] != result[j] by {
                    if j == longer.len() {
                        assert(longer.contains(longer[i]));
                    }
                }
            }
            assert forall|i: int, d: Seq<char>|
                0 <= i < result.len() && #[trigger] map[result[i]].contains(
                    d,
                ) implies result.take(i).contains(d) by {
                if i < longer.len() {
                    assert(result[i] == longer[i]);
                    assert(result.take(i) =~= longer.take(i));
                } else {
                    assert(result.take(i) =~= longer);
                }
            }
            assert forall|i: int| 0 <= i < result.len() implies map.dom().contains(
                #[trigger] result[i],
            ) by {
                if i < longer.len() {
                    assert(result[i] == longer[i]);
                }
            }
            assert(result[longer.len() as int] == name);
        }
    }
}

/// The same for a list of names.
proof fn lemma_all_visited(
    map: Map<Seq<char>, Seq<Seq<char>>>,
    names: Seq<Seq<char>>,
    visiting: Set<Seq<char>>,
    plan: Seq<Seq<char>>,
)
    requires
        map.dom().finite(),
        is_ordered(map, plan),
    ensures
        all_visited(map, names, visiting, plan) matches Ok(longer) ==> {
            &&& is_ordered(map, longer)
            &&& forall|n: Seq<char>| names.contains(n) ==> longer.contains(n)
            &&& grown(
                plan,
                longer,
                |n: Seq<char>| !visiting.contains(n) && wanted(map, names, n),
            )
        },
    decreases map.dom().difference(visiting).len(), names.len(),
{
    let new = |n: Seq<char>| !visiting.contains(n) && wanted(map, names, n);
    if names.len() == 0 {
        assert(plan.take(plan.len() as int) =~= plan);
    } else {
        let front = names.drop_last();
        lemma_all_visited(map, front, visiting, plan);
        if let Ok(middle) = all_visited(map, front, visiting, plan) {
            lemma_visited(map, names.last(), visiting, middle);
            if let Ok(longer) = visited(map, names.last(), visiting, middle) {
                let first_new = |n: Seq<char>| !visiting.contains(n) && wanted(map, front, n);
                let last_new = |n: Seq<char>|
                    !visiting.contains(n) && reaches(map, names.last(), n);
                assert(grown(plan, middle, first_new));
                assert(grown(middle, longer, last_new));
                assert(longer.take(plan.len() as int) =~= plan) by {
                    assert(longer.take(middle.len() as int).take(plan.len() as int)
                        =~= longer.take(plan.len() as int));
                }
                assert forall|i: int| plan.len() <= i < longer.len() implies new(
                    #[trigger] longer[i],
                ) by {
                    if i < middle.len() {
                        assert(longer.take(middle.len() as int)[i] == middle[i]);
                        assert(first_new(middle[i]));
                        let t = choose|t: int|
                            0 <= t < front.len() && reaches(map, #[trigger] front[t], middle[i]);
                        assert(names[t] == front[t]);
                    } else {
                        assert(last_new(longer[i]));
                        assert(names[names.len() - 1] == names.last());
                    }
                }
                assert forall|n: Seq<char>| names.contains(n) implies longer.contains(n) by {
                    let i = names.index_of(n);
                    if i < front.len() {
                        assert(front[i] == n);
                        assert(front.contains(n));
                        lemma_contains_grown(middle, longer, last_new, n);
                    }
                }
            }
        }
    }
}

/// A visit that fails has a reason.
proof fn lemma_visited_fails(
    map: Map<Seq<char>, Seq<Seq<char>>>,
    name: Seq<char>,
    visiting: Set<Seq<char>>,
    plan: Seq<Seq<char>>,
)
    requires
        map.dom().finite(),
        forall|v: Seq<char>| visiting.contains(v) ==> depends(map, v, name),
    ensures
        match visited(map, name, visiting, plan) {
            Ok(_) => true,
            Err(ErrorView::DependencyCycle { name: n }) => reaches(map, name, n) && depends(
                map,
                n,
                n,
            ),
            Err(ErrorView::UnknownEntry { name: n }) => reaches(map, name, n)
                && !map.dom().contains(n),
            Err(_) => false,
        },
    decreases map.dom().difference(visiting).len(), 0nat,
{
    lemma_reaches_itself(map, name);
    if !plan.contains(name) && !visiting.contains(name) && map.dom().contains(name) {
        lemma_fewer_left(map.dom(), visiting, name);
        let inner = visiting.insert(name);
        assert forall|v: Seq<char>, t: int|
            inner.contains(v) && 0 <= t < map[name].len() implies #[trigger] depends(
            map,
            v,
            map[name][t],
        ) by {
            assert(map[name].contains(map[name][t]));
            if v != name {
                lemma_depends_reaches(map, v, name);
            }
            lemma_step_after(map, v, name, map[name][t]);
        }
        lemma_all_visited_fails(map, map[name], inner, plan);
        match all_visited(map, map[name], inner, plan) {
            Err(ErrorView::DependencyCycle { name: n }) => {
                let t = choose|t: int|
                    0 <= t < map[name].len() && reaches(map, #[trigger] map[name][t], n);
                assert(map[name].contains(map[name][t]));
                lemma_step(map, name, map[name][t], n);
            },
            Err(ErrorView::UnknownEntry { name: n }) => {
                let t = choose|t: int|
                    0 <= t < map[name].len() && reaches(map, #[trigger] map[name][t], n);
                assert(map[name].contains(map[name][t]));
                lemma_step(map, name, map[name][t], n);
            },
            _ => {},
        }
    }
}

/// The same for a list of names.
proof fn lemma_all_visited_fails(
    map: Map<Seq<char>, Seq<Seq<char>>>,
    names: Seq<Seq<char>>,
    visiting: Set<Seq<char>>,
    plan: Seq<Seq<char>>,
)
    requires
        map.dom().finite(),
        forall|v: Seq<char>, t: int|
            visiting.contains(v) && 0 <= t < names.len() ==> #[trigger] depends(map, v, names[t]),
    ensures
        match all_visited(map, names, visiting, plan) {
            Ok(_) => true,
            Err(ErrorView::DependencyCycle { name: n }) => wanted(map, names, n) && depends(
                map,
                n,
                n,
            ),
            Err(ErrorView::UnknownEntry { name: n }) => wanted(map, names, n)
                && !map.dom().contains(n),
            Err(_) => false,
        },
    decreases map.dom().difference(visiting).len(), names.len(),
{
    if names.len() > 0 {
        let front = names.drop_last();
        assert forall|v: Seq<char>, t: int|
            visiting.contains(v) && 0 <= t < front.len() implies #[trigger] depends(
            map,
            v,
            front[t],
        ) by {
            assert(front[t] == names[t]);
        }
        lemma_all_visited_fails(map, front, visiting, plan);
        match all_visited(map, front, visiting, plan) {
            Ok(middle) => {
                assert(names[names.len() - 1] == names.last());
                lemma_visited_fails(map, names.last(), visiting, middle);
            },
            Err(ErrorView::DependencyCycle { name: n }) => {
                let t = choose|t: int|
                    0 <= t < front.len() && reaches(map, #[trigger] front[t], n);
                assert(names[t] == front[t]);
            },
            Err(ErrorView::UnknownEntry { name: n }) => {
                let t = choose|t: int|
                    0 <= t < front.len() && reaches(map, #[trigger] front[t], n);
                assert(names[t] == front[t]);
            },
            Err(_) => {},
        }
    }
}

/// In an ordered plan, what a chain leads to stands no later than where the chain begins.
pub proof fn lemma_chain_in_plan(
    map: Map<Seq<char>, Seq<Seq<char>>>,
    plan: Seq<Seq<char>>,
    chain: Seq<Seq<char>>,
    k: int,
)
    requires
        is_ordered(map, plan),
        is_chain(map, chain),
        plan.contains(chain.first()),
        0 <= k < chain.len(),
    ensures
        plan.contains(chain[k]),
        plan.index_of(chain[k]) + k <= plan.index_of(chain.first()),
    decreases k,
{
    if k > 0 {
        lemma_chain_in_plan(map, plan, chain, k - 1);
        let i = plan.index_of(chain[k - 1]);
        assert(lists(map, chain[k - 1], chain[k - 1 + 1]));
        assert(map[plan[i]].contains(chain[k]));
        let before = plan.take(i);
        let j = before.index_of(chain[k]);
        assert(plan[j] == chain[k]);
        assert(plan.index_of(chain[k]) == j);
    }
}

/// A plan holds exactly the targets with everything they depend on, nothing twice, and each name
/// only after all of its dependencies.
pub proof fn law_plan_is_closed_and_ordered(
    entries: Seq<EntrySummaryView>,
    targets: Seq<Seq<char>>,
)
    ensures
        build_plan(entries, targets) matches Ok(plan) ==> {
            &&& is_ordered(dependency_map(entries), plan)
            &&& forall|n: Seq<char>|
                plan.contains(n) <==> #[trigger] wanted(dependency_map(entries), targets, n)
        },
{
    let map = dependency_map(entries);
    lemma_dependency_map_finite(entries);
    assert(is_ordered(map, Seq::empty()));
    lemma_all_visited(map, targets, Set::empty(), Seq::empty());
    if let Ok(plan) = build_plan(entries, targets) {
        let new = |n: Seq<char>| !Set::<Seq<char>>::empty().contains(n) && wanted(map, targets, n);
        assert forall|n: Seq<char>|
            plan.contains(n) <==> #[trigger] wanted(map, targets, n) by {
            if plan.contains(n) {
                assert(new(plan[plan.index_of(n)]));
            }
            if wanted(map, targets, n) {
                let t = choose|t: int|
                    0 <= t < targets.len() && reaches(map, #[trigger] targets[t], n);
                let chain = choose|chain: Seq<Seq<char>>| leads(map, chain, targets[t], n);
                assert(targets.contains(targets[t]));
                lemma_chain_in_plan(map, plan, chain, chain.len() - 1);
            }
        }
    }
}

/// There is a plan exactly if everything that the targets need is recorded and nothing that they
/// need depends on itself. Where there is none, the error names an offender.
pub proof fn law_plan_exists(entries: Seq<EntrySummaryView>, targets: Seq<Seq<char>>)
    ensures
        build_plan(entries, targets) is Ok <==> (forall|n: Seq<char>| #[trigger]
            wanted(dependency_map(entries), targets, n) ==> dependency_map(entries).dom().contains(
                n,
            ) && !depends(dependency_map(entries), n, n)),
        match build_plan(entries, targets) {
            Ok(_) => true,
            Err(ErrorView::DependencyCycle { name }) => wanted(
                dependency_map(entries),
                targets,
                name,
            ) && depends(dependency_map(entries), name, name),
            Err(ErrorView::UnknownEntry { name }) => wanted(dependency_map(entries), targets, name)
                && !dependency_map(entries).dom().contains(name),
            Err(_) => false,
        },
{
    let map = dependency_map(entries);
    lemma_dependency_map_finite(entries);
    lemma_all_visited_fails(map, targets, Set::empty(), Seq::empty());
    law_plan_is_closed_and_ordered(entries, targets);
    if let Ok(plan) = build_plan(entries, targets) {
        assert forall|n: Seq<char>| #[trigger] wanted(map, targets, n) implies map.dom().contains(
            n,
        ) && !depends(map, n, n) by {
            assert(plan.contains(n));
            assert(map.dom().contains(plan[plan.index_of(n)]));
            if depends(map, n, n) {
                let chain = choose|chain: Seq<Seq<char>>|
                    #[trigger] leads(map, chain, n, n) && chain.len() > 1;
                lemma_chain_in_plan(map, plan, chain, chain.len() - 1);
            }
        }
    }
}

} // verus!
