//! The recorded entries, and what a build of them is asked for.

use vstd::prelude::*;
use vstd::string::*;

use crate::build_run::BuildRun;
use crate::entry::{records, EntrySummary, EntrySummaryView};
use crate::error::{Error, ErrorView};
use crate::graph::{build_execution_graph, plan_deps};
use crate::name_order::{is_text_at_most, lemma_text_total, lemma_text_transitive, text_at_most};
use crate::plan::{build_plan, recorded};
use crate::schedule::fresh;
use crate::sort::{is_stable_sort, stable_sort, views, Ranked};
use crate::text::texts;

verus! {

/// Entries are ordered by their place in autobuilds, and by name where that is the same.
impl Ranked for EntrySummary {
    open spec fn ranks(a: EntrySummaryView, b: EntrySummaryView) -> bool {
        ||| a.config.autobuild_order < b.config.autobuild_order
        ||| a.config.autobuild_order == b.config.autobuild_order && text_at_most(
            a.config.name,
            b.config.name,
        )
    }

    proof fn rank_is_total(a: EntrySummaryView, b: EntrySummaryView) {
        lemma_text_total(a.config.name, b.config.name);
    }

    proof fn rank_is_transitive(a: EntrySummaryView, b: EntrySummaryView, c: EntrySummaryView) {
        if a.config.autobuild_order == b.config.autobuild_order && b.config.autobuild_order
            == c.config.autobuild_order {
            lemma_text_transitive(a.config.name, b.config.name, c.config.name);
        }
    }

    fn ranks_below(&self, other: &Self) -> (b: bool) {
        let (left, right): (i32, i32) = (
            self.config.autobuild_order,
            other.config.autobuild_order,
        );
        left < right || (left == right && is_text_at_most(
            self.config.name.as_str(),
            other.config.name.as_str(),
        ))
    }
}

/// Picks what takes part in autobuilds, or everything.
pub open spec fn picks(autobuild_only: bool) -> spec_fn(EntrySummaryView) -> bool {
    |entry: EntrySummaryView| !autobuild_only || entry.config.autobuild
}

/// The entries that take part in autobuilds, or all of them.
pub open spec fn selected(
    entries: Seq<EntrySummaryView>,
    autobuild_only: bool,
) -> Seq<EntrySummaryView> {
    entries.filter(picks(autobuild_only))
}

/// Sorts entries by their place in autobuilds, and by name where that is the same.
pub fn sort_entries(entries: Vec<EntrySummary>) -> (sorted: Vec<EntrySummary>)
    ensures
        is_stable_sort::<EntrySummary>(records(entries@), records(sorted@)),
{
    assert(views(entries@) =~= records(entries@));
    let sorted: Vec<EntrySummary> = stable_sort(entries);
    assert(views(sorted@) =~= records(sorted@));
    sorted
}

/// The entries that were found, as they are listed and built.
pub fn load_entries(found: &Vec<EntrySummary>, autobuild_only: bool) -> (entries: Vec<EntrySummary>)
    ensures
        is_stable_sort::<EntrySummary>(
            selected(records(found@), autobuild_only),
            records(entries@),
        ),
{
    let ghost all = records(found@);
    let ghost pick = picks(autobuild_only);
    let mut kept: Vec<EntrySummary> = Vec::new();
    let mut i: usize = 0;
    proof {
        reveal(Seq::filter);
        assert(records(kept@) =~= all.take(0).filter(pick));
    }
    while i < found.len()
        invariant
            i <= found@.len(),
            all == records(found@),
            pick == picks(autobuild_only),
            records(kept@) == all.take(i as int).filter(pick),
        decreases found@.len() - i,
    {
        let ghost before = records(kept@);
        proof {
            assert(all[i as int] == found@[i as int]@);
            assert(all.take(i + 1) =~= all.take(i as int).push(all[i as int]));
            all.take(i as int).lemma_filter_push(all[i as int], pick);
        }
        if !autobuild_only || found[i].config.autobuild {
            kept.push(found[i].clone());
            assert(records(kept@) =~= before.push(all[i as int]));
        }
        i = i + 1;
    }
    assert(all.take(i as int) =~= all);
    sort_entries(kept)
}

/// What a build is asked for.
#[derive(Debug)]
pub enum BuildRequest {
    /// One entry.
    One { name: String },
    /// The entries that take part in autobuilds.
    Autobuild,
    /// Every entry.
    All,
}

/// What a build is asked for.
#[verifier::ext_equal]
pub enum BuildRequestView {
    One { name: Seq<char> },
    Autobuild,
    All,
}

impl View for BuildRequest {
    type V = BuildRequestView;

    open spec fn view(&self) -> BuildRequestView {
        match self {
            BuildRequest::One { name } => BuildRequestView::One { name: name@ },
            BuildRequest::Autobuild => BuildRequestView::Autobuild,
            BuildRequest::All => BuildRequestView::All,
        }
    }
}

/// What the build command asks for: an entry by its name, or else the autobuild entries.
pub fn handle_build(name: Option<String>, autobuild: bool) -> (request: Result<BuildRequest, Error>)
    ensures
        match request {
            Ok(r) => match name {
                Some(n) => !autobuild && r == (BuildRequest::One { name: n }),
                None => autobuild && r == BuildRequest::Autobuild,
            },
            Err(e) => match name {
                Some(_) => autobuild && e == Error::BuildTargetConflict,
                None => !autobuild && e == Error::BuildTargetMissing,
            },
        },
{
    match (name, autobuild) {
        (Some(name), false) => Ok(BuildRequest::One { name }),
        (None, true) => Ok(BuildRequest::Autobuild),
        (Some(_), true) => Err(Error::BuildTargetConflict),
        (None, false) => Err(Error::BuildTargetMissing),
    }
}

/// The names of entries.
pub open spec fn names_of(entries: Seq<EntrySummaryView>) -> Seq<Seq<char>> {
    entries.map_values(|entry: EntrySummaryView| entry.config.name)
}

/// The names that a request stands for.
pub open spec fn targets_of(
    request: BuildRequestView,
    entries: Seq<EntrySummaryView>,
) -> Seq<Seq<char>> {
    match request {
        BuildRequestView::One { name } => seq![name],
        BuildRequestView::Autobuild => names_of(selected(entries, true)),
        BuildRequestView::All => names_of(entries),
    }
}

fn entry_targets(entries: &Vec<EntrySummary>, autobuild_only: bool) -> (targets: Vec<String>)
    ensures
        texts(targets@) == names_of(selected(records(entries@), autobuild_only)),
{
    let ghost all = records(entries@);
    let ghost pick = picks(autobuild_only);
    let mut targets: Vec<String> = Vec::new();
    let mut i: usize = 0;
    proof {
        reveal(Seq::filter);
        assert(texts(targets@) =~= names_of(all.take(0).filter(pick)));
    }
    while i < entries.len()
        invariant
            i <= entries@.len(),
            all == records(entries@),
            pick == picks(autobuild_only),
            texts(targets@) == names_of(all.take(i as int).filter(pick)),
        decreases entries@.len() - i,
    {
        let ghost before = texts(targets@);
        proof {
            assert(all[i as int] == entries@[i as int]@);
            assert(all.take(i + 1) =~= all.take(i as int).push(all[i as int]));
            all.take(i as int).lemma_filter_push(all[i as int], pick);
        }
        if !autobuild_only || entries[i].config.autobuild {
            targets.push(entries[i].config.name.clone());
            proof {
                let kept = all.take(i as int).filter(pick);
                assert(texts(targets@) =~= before.push(all[i as int].config.name));
                assert(names_of(kept.push(all[i as int])) =~= names_of(kept).push(
                    all[i as int].config.name,
                ));
            }
        }
        i = i + 1;
    }
    assert(all.take(i as int) =~= all);
    targets
}

/// The names that a request stands for.
pub fn build_targets(request: &BuildRequest, entries: &Vec<EntrySummary>) -> (targets: Vec<String>)
    ensures
        texts(targets@) == targets_of(request@, records(entries@)),
{
    match request {
        BuildRequest::One { name } => {
            let mut targets: Vec<String> = Vec::new();
            targets.push(name.clone());
            assert(texts(targets@) =~= seq![name@]);
            targets
        },
        BuildRequest::Autobuild => entry_targets(entries, true),
        BuildRequest::All => {
            proof {
                lemma_all_selected(records(entries@));
            }
            entry_targets(entries, false)
        },
    }
}

/// All entries are all of them.
proof fn lemma_all_selected(entries: Seq<EntrySummaryView>)
    ensures
        selected(entries, false) == entries,
    decreases entries.len(),
{
    if entries.len() == 0 {
        reveal(Seq::filter);
        assert(selected(entries, false) =~= entries);
    } else {
        let front = entries.drop_last();
        lemma_all_selected(front);
        assert(entries =~= front.push(entries.last()));
        front.lemma_filter_push(entries.last(), picks(false));
    }
}

/// Prepares the build of what is asked for. Without targets there is nothing to build.
pub fn begin_build(
    request: &BuildRequest,
    entries: &Vec<EntrySummary>,
    max_jobs: usize,
) -> (result: Result<Option<BuildRun>, Error>)
    requires
        max_jobs > 0,
    ensures
        ({
            let all = records(entries@);
            let targets = targets_of(request@, all);
            match result {
                Ok(None) => targets.len() == 0,
                Ok(Some(run)) => {
                    &&& targets.len() > 0
                    &&& run.fits()
                    &&& build_plan(all, targets) == Ok::<Seq<Seq<char>>, ErrorView>(run.names())
                    &&& run.entries() == Seq::new(
                        run.names().len(),
                        |i: int| recorded(all)[run.names()[i]],
                    )
                    &&& run.model() == fresh(plan_deps(all, run.names()), max_jobs as int)
                },
                Err(e) => {
                    &&& targets.len() > 0
                    &&& build_plan(all, targets) == Err::<Seq<Seq<char>>, ErrorView>(e@)
                },
            }
        }),
{
    let targets: Vec<String> = build_targets(request, entries);
    assert(texts(targets@).len() == targets@.len());
    if targets.len() == 0 {
        return Ok(None);
    }
    match build_execution_graph(entries.as_slice(), targets.as_slice()) {
        Ok(graph) => {
            let ghost deps = graph.deps();
            assert(graph.states() =~= fresh(deps, max_jobs as int).states);
            assert(graph.remaining() =~= fresh(deps, max_jobs as int).remaining);
            Ok(Some(BuildRun::new(graph, max_jobs)))
        },
        Err(e) => Err(e),
    }
}

} // verus!
