//! Which entries are listed and built, and in which order.

use vstd::prelude::*;

use crate::entries::{names_of, picks, selected, targets_of, BuildRequestView};
use crate::entry::{EntryConfigView, EntrySummary, EntrySummaryView};
use crate::import::{ImportSource, ImportSourceView};
use crate::name_order::{lemma_text_antisymmetric, lemma_text_total};
use crate::sort::{is_stable_sort, tied, Ranked};
use crate::text_laws::{comes_before, law_names_are_in_dictionary_order};

verus! {

/// Filters that agree on a list keep the same of it.
pub proof fn lemma_filter_same<A>(list: Seq<A>, p: spec_fn(A) -> bool, q: spec_fn(A) -> bool)
    requires
        forall|i: int| 0 <= i < list.len() ==> p(#[trigger] list[i]) == q(list[i]),
    ensures
        list.filter(p) == list.filter(q),
    decreases list.len(),
{
    reveal(Seq::filter);
    if list.len() > 0 {
        let front = list.drop_last();
        assert forall|i: int| 0 <= i < front.len() implies p(#[trigger] front[i]) == q(front[i]) by {
            assert(front[i] == list[i]);
        }
        assert(p(list[list.len() - 1]) == q(list[list.len() - 1]));
        lemma_filter_same(front, p, q);
    }
}

/// Filtering twice keeps what passes both filters.
pub proof fn lemma_filter_twice<A>(
    list: Seq<A>,
    p: spec_fn(A) -> bool,
    q: spec_fn(A) -> bool,
    both: spec_fn(A) -> bool,
)
    requires
        forall|x: A| #[trigger] both(x) == (p(x) && q(x)),
    ensures
        list.filter(p).filter(q) == list.filter(both),
    decreases list.len(),
{
    if list.len() == 0 {
        reveal(Seq::filter);
        assert(list.filter(p).filter(q) =~= list.filter(both));
    } else {
        let (front, x) = (list.drop_last(), list.last());
        lemma_filter_twice(front, p, q, both);
        assert(list =~= front.push(x));
        front.lemma_filter_push(x, p);
        front.lemma_filter_push(x, both);
        assert(both(x) == (p(x) && q(x)));
        if p(x) {
            front.filter(p).lemma_filter_push(x, q);
        }
    }
}

/// An entry is in the autobuild-only list exactly if it is recorded and has autobuild set, whatever
/// its other settings are. Otherwise everything recorded is listed.
pub proof fn law_autobuild_alone_selects(
    entries: Seq<EntrySummaryView>,
    entry: EntrySummaryView,
)
    ensures
        selected(entries, true).contains(entry) <==> entries.contains(entry)
            && entry.config.autobuild,
        selected(entries, false) == entries,
{
    let pick = picks(true);
    let kept = selected(entries, true);
    if kept.contains(entry) {
        entries.lemma_filter_contains_rev(pick, entry);
        entries.lemma_filter_pred(pick, kept.index_of(entry));
    }
    if entries.contains(entry) && entry.config.autobuild {
        entries.lemma_filter_contains(pick, entries.index_of(entry));
    }
    lemma_everything_is_selected(entries);
}

proof fn lemma_everything_is_selected(entries: Seq<EntrySummaryView>)
    ensures
        selected(entries, false) == entries,
    decreases entries.len(),
{
    if entries.len() == 0 {
        reveal(Seq::filter);
        assert(selected(entries, false) =~= entries);
    } else {
        let front = entries.drop_last();
        lemma_everything_is_selected(front);
        assert(entries =~= front.push(entries.last()));
        front.lemma_filter_push(entries.last(), picks(false));
    }
}

/// A name is a target of an autobuild exactly if some entry of that name has autobuild set, and a
/// target of a build of everything exactly if some entry has that name. A build by name has that
/// name as its only target, recorded or not.
pub proof fn law_targets_are_what_is_asked_for(entries: Seq<EntrySummaryView>, name: Seq<char>)
    ensures
        targets_of(BuildRequestView::Autobuild, entries).contains(name) <==> exists|i: int|
            0 <= i < entries.len() && (#[trigger] entries[i]).config.name == name
                && entries[i].config.autobuild,
        targets_of(BuildRequestView::All, entries).contains(name) <==> exists|i: int|
            0 <= i < entries.len() && (#[trigger] entries[i]).config.name == name,
        targets_of(BuildRequestView::One { name }, entries) == seq![name],
{
    let kept = selected(entries, true);
    let targets = targets_of(BuildRequestView::Autobuild, entries);
    if targets.contains(name) {
        let e = kept[targets.index_of(name)];
        assert(kept.contains(e));
        law_autobuild_alone_selects(entries, e);
        assert(entries[entries.index_of(e)] == e);
    }
    if exists|i: int|
        0 <= i < entries.len() && (#[trigger] entries[i]).config.name == name
            && entries[i].config.autobuild {
        let i = choose|i: int|
            0 <= i < entries.len() && (#[trigger] entries[i]).config.name == name
                && entries[i].config.autobuild;
        law_autobuild_alone_selects(entries, entries[i]);
        assert(entries.contains(entries[i]));
        assert(targets[kept.index_of(entries[i])] == name);
    }
    let all = targets_of(BuildRequestView::All, entries);
    if all.contains(name) {
        assert(entries[all.index_of(name)].config.name == name);
    }
    if exists|i: int| 0 <= i < entries.len() && (#[trigger] entries[i]).config.name == name {
        let i = choose|i: int|
            0 <= i < entries.len() && (#[trigger] entries[i]).config.name == name;
        assert(all[i] == name);
    }
}

/// One more entry adds its name behind the other targets: always to a build of everything, and to
/// an autobuild exactly if it has autobuild set.
pub proof fn law_targets_keep_the_order_of_entries(
    entries: Seq<EntrySummaryView>,
    entry: EntrySummaryView,
)
    ensures
        targets_of(BuildRequestView::All, entries.push(entry)) == targets_of(
            BuildRequestView::All,
            entries,
        ).push(entry.config.name),
        targets_of(BuildRequestView::Autobuild, entries.push(entry)) == (
        if entry.config.autobuild {
            targets_of(BuildRequestView::Autobuild, entries).push(entry.config.name)
        } else {
            targets_of(BuildRequestView::Autobuild, entries)
        }),
        targets_of(BuildRequestView::All, Seq::empty()).len() == 0,
        targets_of(BuildRequestView::Autobuild, Seq::empty()).len() == 0,
{
    reveal(Seq::filter);
    entries.lemma_filter_push(entry, picks(true));
    assert(names_of(entries.push(entry)) =~= names_of(entries).push(entry.config.name));
    let kept = selected(entries, true);
    assert(names_of(kept.push(entry)) =~= names_of(kept).push(entry.config.name));
}

/// Picks the entries with this place in autobuilds and this name, among those that have autobuild
/// set or among all.
pub open spec fn placed(order: int, name: Seq<char>, autobuild_only: bool) -> spec_fn(
    EntrySummaryView,
) -> bool {
    |e: EntrySummaryView|
        e.config.autobuild_order == order && e.config.name == name && (e.config.autobuild
            || !autobuild_only)
}

/// What is listed of the entries that were found comes by place in autobuilds and then by name, and
/// is nothing but the entries asked for, each as often as it was found. Entries of the same place
/// and name keep their order.
pub proof fn law_listing_is_sorted(
    found: Seq<EntrySummaryView>,
    autobuild_only: bool,
    list: Seq<EntrySummaryView>,
    order: int,
    name: Seq<char>,
)
    requires
        is_stable_sort::<EntrySummary>(selected(found, autobuild_only), list),
    ensures
        list.filter(placed(order, name, false)) == found.filter(
            placed(order, name, autobuild_only),
        ),
        forall|i: int, j: int|
            0 <= i < j < list.len() ==> {
                let (a, b) = (#[trigger] list[i].config, #[trigger] list[j].config);
                ||| a.autobuild_order < b.autobuild_order
                ||| a.autobuild_order == b.autobuild_order && (a.name == b.name || comes_before(
                    a.name,
                    b.name,
                ))
            },
{
    assert forall|i: int, j: int| 0 <= i < j < list.len() implies {
        let (a, b) = (#[trigger] list[i].config, #[trigger] list[j].config);
        ||| a.autobuild_order < b.autobuild_order
        ||| a.autobuild_order == b.autobuild_order && (a.name == b.name || comes_before(
            a.name,
            b.name,
        ))
    } by {
        assert(<EntrySummary as Ranked>::ranks(list[i], list[j]));
        law_names_are_in_dictionary_order(list[i].config.name, list[j].config.name);
    }
    let kept = selected(found, autobuild_only);
    let mine = placed(order, name, false);
    lemma_filter_twice(found, picks(autobuild_only), mine, placed(order, name, autobuild_only));
    let some: EntrySummaryView = arbitrary();
    let x = EntrySummaryView {
        config: EntryConfigView { name, autobuild_order: order, ..some.config },
        ..some
    };
    let class = tied::<EntrySummary>(x);
    assert forall|e: EntrySummaryView| #[trigger] mine(e) == class(e) by {
        lemma_text_total(name, name);
        if class(e) && e.config.autobuild_order == order {
            lemma_text_antisymmetric(name, e.config.name);
        }
    }
    lemma_filter_same(list, mine, class);
    lemma_filter_same(kept, mine, class);
    assert(list.filter(class) == kept.filter(class));
}

/// Picks the workspaces of a name.
pub open spec fn named(name: Seq<char>) -> spec_fn(ImportSourceView) -> bool {
    |source: ImportSourceView| source.name == name
}

/// Workspaces are imported in dictionary order of their names. Those of the same name keep their
/// order, and none is lost or made up.
pub proof fn law_imports_are_sorted(
    found: Seq<ImportSourceView>,
    sources: Seq<ImportSourceView>,
    name: Seq<char>,
)
    requires
        is_stable_sort::<ImportSource>(found, sources),
    ensures
        sources.filter(named(name)) == found.filter(named(name)),
        sources.to_multiset() == found.to_multiset(),
        forall|i: int, j: int|
            0 <= i < j < sources.len() ==> {
                let (a, b) = (#[trigger] sources[i].name, #[trigger] sources[j].name);
                a == b || comes_before(a, b)
            },
{
    assert forall|i: int, j: int| 0 <= i < j < sources.len() implies {
        let (a, b) = (#[trigger] sources[i].name, #[trigger] sources[j].name);
        a == b || comes_before(a, b)
    } by {
        assert(<ImportSource as Ranked>::ranks(sources[i], sources[j]));
        law_names_are_in_dictionary_order(sources[i].name, sources[j].name);
    }
    let some: ImportSourceView = arbitrary();
    let x = ImportSourceView { name, ..some };
    let class = tied::<ImportSource>(x);
    let mine = named(name);
    assert forall|e: ImportSourceView| #[trigger] mine(e) == class(e) by {
        lemma_text_total(name, name);
        if class(e) {
            lemma_text_antisymmetric(name, e.name);
        }
    }
    lemma_filter_same(sources, mine, class);
    lemma_filter_same(found, mine, class);
}

/// Positions are sorted from the lowest to the highest.
pub proof fn law_positions_are_sorted(found: Seq<usize>, sorted: Seq<usize>)
    requires
        is_stable_sort::<usize>(found, sorted),
    ensures
        sorted.to_multiset() == found.to_multiset(),
        forall|i: int, j: int|
            0 <= i < j < sorted.len() ==> #[trigger] sorted[i] <= #[trigger] sorted[j],
{
    assert forall|i: int, j: int| 0 <= i < j < sorted.len() implies #[trigger] sorted[i]
        <= #[trigger] sorted[j] by {
        assert(<usize as Ranked>::ranks(sorted[i], sorted[j]));
    }
}

} // verus!
