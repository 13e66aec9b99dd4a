//! Build plans: which entries a build takes in, and in which order.

use vstd::prelude::*;
use vstd::string::*;

use crate::entry::{records, EntrySummary, EntrySummaryView};
use crate::error::{Error, ErrorView};
use crate::text::{contains_name, texts};

verus! {

/// The dependencies that each name has. Where two entries have one name, the later one counts.
pub open spec fn dependency_map(entries: Seq<EntrySummaryView>) -> Map<Seq<char>, Seq<Seq<char>>>
    decreases entries.len(),
{
    if entries.len() == 0 {
        Map::empty()
    } else {
        dependency_map(entries.drop_last()).insert(
            entries.last().config.name,
            entries.last().config.depends_on,
        )
    }
}

/// The entry that each name stands for: the last one of that name.
pub open spec fn recorded(entries: Seq<EntrySummaryView>) -> Map<Seq<char>, EntrySummaryView>
    decreases entries.len(),
{
    if entries.len() == 0 {
        Map::empty()
    } else {
        recorded(entries.drop_last()).insert(entries.last().config.name, entries.last())
    }
}

/// Position `i` holds the last entry of the given name.
pub open spec fn is_latest(entries: Seq<EntrySummaryView>, name: Seq<char>, i: int) -> bool {
    &&& 0 <= i < entries.len()
    &&& entries[i].config.name == name
    &&& forall|j: int| i < j < entries.len() ==> (#[trigger] entries[j]).config.name != name
}

/// Only finitely many names have dependencies recorded.
pub proof fn lemma_dependency_map_finite(entries: Seq<EntrySummaryView>)
    ensures
        dependency_map(entries).dom().finite(),
    decreases entries.len(),
{
    if entries.len() > 0 {
        lemma_dependency_map_finite(entries.drop_last());
    }
}

/// The last entry of a name is the one whose dependencies count.
pub proof fn lemma_latest(entries: Seq<EntrySummaryView>, name: Seq<char>, i: int)
    requires
        is_latest(entries, name, i),
    ensures
        dependency_map(entries).dom().contains(name),
        dependency_map(entries)[name] == entries[i].config.depends_on,
        recorded(entries).dom().contains(name),
        recorded(entries)[name] == entries[i],
    decreases entries.len(),
{
    if i < entries.len() - 1 {
        assert(entries[entries.len() - 1].config.name != name);
        lemma_latest(entries.drop_last(), name, i);
    }
}

/// A name that no entry has is not in the map.
pub proof fn lemma_unknown(entries: Seq<EntrySummaryView>, name: Seq<char>)
    requires
        forall|j: int| 0 <= j < entries.len() ==> (#[trigger] entries[j]).config.name != name,
    ensures
        !dependency_map(entries).dom().contains(name),
        !recorded(entries).dom().contains(name),
    decreases entries.len(),
{
    if entries.len() > 0 {
        assert(entries[entries.len() - 1].config.name != name);
        lemma_unknown(entries.drop_last(), name);
    }
}

/// Leaving out one more name leaves fewer names over.
pub proof fn lemma_fewer_left(all: Set<Seq<char>>, taken: Set<Seq<char>>, name: Seq<char>)
    requires
        all.finite(),
        all.contains(name),
        !taken.contains(name),
    ensures
        all.difference(taken.insert(name)).len() < all.difference(taken).len(),
{
    let left = all.difference(taken);
    vstd::set_lib::lemma_len_subset(left, all);
    assert(all.difference(taken.insert(name)) =~= left.remove(name));
    assert(left.contains(name));
}

/// The plan after `name` was asked for, when `plan` is what came before and the names in
/// `visiting` wait for their dependencies: the dependencies of a name come before it, in the
/// order in which it lists them, and nothing comes twice.
pub open spec fn visited(
    map: Map<Seq<char>, Seq<Seq<char>>>,
    name: Seq<char>,
    visiting: Set<Seq<char>>,
    plan: Seq<Seq<char>>,
) -> Result<Seq<Seq<char>>, ErrorView>
    decreases map.dom().difference(visiting).len(), 0nat,
    when map.dom().finite()
{
    if plan.contains(name) {
        Ok(plan)
    } else if visiting.contains(name) {
        Err(ErrorView::DependencyCycle { name })
    } else if !map.dom().contains(name) {
        Err(ErrorView::UnknownEntry { name })
    } else {
        proof {
            lemma_fewer_left(map.dom(), visiting, name);
        }
        match all_visited(map, map[name], visiting.insert(name), plan) {
            Ok(longer) => Ok(longer.push(name)),
            Err(e) => Err(e),
        }
    }
}

/// The plan after each of `names` was asked for in turn.
pub open spec fn all_visited(
    map: Map<Seq<char>, Seq<Seq<char>>>,
    names: Seq<Seq<char>>,
    visiting: Set<Seq<char>>,
    plan: Seq<Seq<char>>,
) -> Result<Seq<Seq<char>>, ErrorView>
    decreases map.dom().difference(visiting).len(), names.len(),
    when map.dom().finite()
{
    if names.len() == 0 {
        Ok(plan)
    } else {
        match all_visited(map, names.drop_last(), visiting, plan) {
            Ok(longer) => visited(map, names.last(), visiting, longer),
            Err(e) => Err(e),
        }
    }
}

/// The plan for building `targets`.
pub open spec fn build_plan(
    entries: Seq<EntrySummaryView>,
    targets: Seq<Seq<char>>,
) -> Result<Seq<Seq<char>>, ErrorView> {
    all_visited(dependency_map(entries), targets, Set::empty(), Seq::empty())
}

/// What fails for the first names fails for all of them.
proof fn lemma_failure_stays(
    map: Map<Seq<char>, Seq<Seq<char>>>,
    names: Seq<Seq<char>>,
    visiting: Set<Seq<char>>,
    plan: Seq<Seq<char>>,
    k: int,
)
    requires
        map.dom().finite(),
        0 <= k <= names.len(),
        all_visited(map, names.take(k), visiting, plan) is Err,
    ensures
        all_visited(map, names, visiting, plan) == all_visited(map, names.take(k), visiting, plan),
    decreases names.len(),
{
    if k == names.len() {
        assert(names.take(k) =~= names);
    } else {
        assert(names.drop_last().take(k) =~= names.take(k));
        lemma_failure_stays(map, names.drop_last(), visiting, plan, k);
    }
}

/// The position of the last entry of a name.
pub fn find_entry(entries: &[EntrySummary], name: &String) -> (found: Option<usize>)
    ensures
        match found {
            Some(i) => is_latest(records(entries@), name@, i as int),
            None => forall|j: int|
                0 <= j < entries@.len() ==> (#[trigger] records(entries@)[j]).config.name != name@,
        },
{
    let mut i: usize = entries.len();
    while i > 0
        invariant
            i <= entries@.len(),
            forall|j: int|
                i <= j < entries@.len() ==> (#[trigger] records(entries@)[j]).config.name != name@,
        decreases i,
    {
        i = i - 1;
        assert(records(entries@)[i as int] == entries@[i as int]@);
        if entries[i].config.name == *name {
            return Some(i);
        }
    }
    None
}

/// Adds `name` and what it depends on to the plan.
fn visit_build_dependencies(
    name: &String,
    entries: &[EntrySummary],
    visiting: &mut Vec<String>,
    plan: &mut Vec<String>,
) -> (result: Result<(), Error>)
    ensures
        match result {
            Ok(_) => visited(
                dependency_map(records(entries@)),
                name@,
                texts(old(visiting)@).to_set(),
                texts(old(plan)@),
            ) == Ok::<Seq<Seq<char>>, ErrorView>(texts(final(plan)@)) && texts(final(visiting)@)
                == texts(old(visiting)@),
            Err(e) => visited(
                dependency_map(records(entries@)),
                name@,
                texts(old(visiting)@).to_set(),
                texts(old(plan)@),
            ) == Err::<Seq<Seq<char>>, ErrorView>(e@),
        },
        // A name that is refused itself is not planned. Only one that is not recorded stays among
        // those that wait.
        result is Err && texts(old(visiting)@).contains(name@) ==> texts(final(visiting)@) == texts(
            old(visiting)@,
        ) && texts(final(plan)@) == texts(old(plan)@),
        result is Err && !texts(old(visiting)@).contains(name@) && !dependency_map(
            records(entries@),
        ).dom().contains(name@) ==> texts(final(visiting)@) == texts(old(visiting)@).push(name@)
            && texts(final(plan)@) == texts(old(plan)@),
        // What was planned before stays planned.
        texts(old(plan)@).is_prefix_of(texts(final(plan)@)),
        texts(old(visiting)@).is_prefix_of(texts(final(visiting)@)),
    decreases
        dependency_map(records(entries@)).dom().difference(texts(old(visiting)@).to_set()).len(),
{
    let ghost map = dependency_map(records(entries@));
    let ghost waiting = texts(visiting@);
    let ghost start = texts(plan@);
    proof {
        lemma_dependency_map_finite(records(entries@));
    }
    if contains_name(plan, name) {
        return Ok(());
    }
    if contains_name(visiting, name) {
        return Err(Error::DependencyCycle { name: name.clone() });
    }
    visiting.push(name.clone());
    assert(texts(visiting@) =~= waiting.push(name@));
    let index: usize = match find_entry(entries, name) {
        Some(index) => {
            proof {
                lemma_latest(records(entries@), name@, index as int);
            }
            index
        },
        None => {
            proof {
                lemma_unknown(records(entries@), name@);
            }
            return Err(Error::UnknownEntry { name: name.clone() });
        },
    };
    assert(texts(visiting@).to_set() =~= waiting.to_set().insert(name@)) by {
        waiting.lemma_push_to_set_commute(name@);
    }
    proof {
        lemma_fewer_left(map.dom(), waiting.to_set(), name@);
    }
    let dependencies: &Vec<String> = &entries[index].config.depends_on;
    let ghost deps = texts(dependencies@);
    assert(deps == map[name@]);
    let mut k: usize = 0;
    assert(deps.take(0) =~= Seq::empty());
    while k < dependencies.len()
        invariant
            k <= dependencies@.len(),
            map == dependency_map(records(entries@)),
            map.dom().finite(),
            deps == texts(dependencies@),
            texts(visiting@) == waiting.push(name@),
            texts(visiting@).to_set() == waiting.to_set().insert(name@),
            map.dom().difference(waiting.to_set().insert(name@)).len() < map.dom().difference(
                waiting.to_set(),
            ).len(),
            waiting == texts(old(visiting)@),
            start == texts(old(plan)@),
            !start.contains(name@),
            start.is_prefix_of(texts(plan@)),
            !waiting.contains(name@),
            !waiting.to_set().contains(name@),
            map.dom().contains(name@),
            map[name@] == deps,
            all_visited(map, deps.take(k as int), waiting.to_set().insert(name@), start) == Ok::<
                Seq<Seq<char>>,
                ErrorView,
            >(texts(plan@)),
        decreases dependencies@.len() - k,
    {
        proof {
            assert(deps.take(k + 1).drop_last() =~= deps.take(k as int));
            assert(deps.take(k + 1).last() == dependencies@[k as int]@);
        }
        let outcome: Result<(), Error> = visit_build_dependencies(
            &dependencies[k],
            entries,
            visiting,
            plan,
        );
        match outcome {
            Ok(_) => {},
            Err(e) => {
                proof {
                    lemma_failure_stays(
                        map,
                        deps,
                        waiting.to_set().insert(name@),
                        start,
                        k + 1,
                    );
                }
                return Err(e);
            },
        }
        k = k + 1;
    }
    assert(deps.take(k as int) =~= deps);
    let ghost longer = texts(plan@);
    let ghost stack = visiting@;
    let _ = visiting.pop();
    assert(texts(visiting@) =~= texts(stack).drop_last());
    assert(texts(stack).drop_last() =~= waiting);
    plan.push(name.clone());
    assert(texts(plan@) =~= longer.push(name@));
    Ok(())
}

/// The names to build so that each of `targets` is built, dependencies first.
pub fn resolve_build_plan(entries: &[EntrySummary], targets: &[String]) -> (result: Result<
    Vec<String>,
    Error,
>)
    ensures
        match result {
            Ok(plan) => build_plan(records(entries@), texts(targets@)) == Ok::<
                Seq<Seq<char>>,
                ErrorView,
            >(texts(plan@)),
            Err(e) => build_plan(records(entries@), texts(targets@)) == Err::<
                Seq<Seq<char>>,
                ErrorView,
            >(e@),
        },
{
    let ghost map = dependency_map(records(entries@));
    let ghost names = texts(targets@);
    proof {
        lemma_dependency_map_finite(records(entries@));
    }
    let mut visiting: Vec<String> = Vec::new();
    let mut plan: Vec<String> = Vec::new();
    assert(texts(plan@) =~= Seq::empty());
    assert(texts(visiting@) =~= Seq::empty());
    assert(Seq::<Seq<char>>::empty().to_set() =~= Set::empty());
    assert(names.take(0) =~= Seq::empty());
    let mut k: usize = 0;
    while k < targets.len()
        invariant
            k <= targets@.len(),
            map == dependency_map(records(entries@)),
            map.dom().finite(),
            names == texts(targets@),
            texts(visiting@) == Seq::<Seq<char>>::empty(),
            Seq::<Seq<char>>::empty().to_set() == Set::<Seq<char>>::empty(),
            all_visited(map, names.take(k as int), Set::empty(), Seq::empty()) == Ok::<
                Seq<Seq<char>>,
                ErrorView,
            >(texts(plan@)),
        decreases targets@.len() - k,
    {
        proof {
            assert(names.take(k + 1).drop_last() =~= names.take(k as int));
            assert(names.take(k + 1).last() == targets@[k as int]@);
        }
        match visit_build_dependencies(&targets[k], entries, &mut visiting, &mut plan) {
            Ok(_) => {},
            Err(e) => {
                proof {
                    lemma_failure_stays(map, names, Set::empty(), Seq::empty(), k + 1);
                }
                return Err(e);
            },
        }
        k = k + 1;
    }
    assert(names.take(k as int) =~= names);
    Ok(plan)
}

} // verus!
