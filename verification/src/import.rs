//! Importing workspaces that lie elsewhere.

use vstd::prelude::*;
use vstd::string::*;
use vstd::utf8::*;

use crate::dockerfile::{base_images, entry_images, infer_import_dependencies, is_entry_image};
use crate::entries::names_of;
use crate::entry::{records, EntryConfig, EntryConfigView, EntryPaths, EntrySummary};
use crate::error::{Error, ErrorView};
use crate::files::{
    build_script_text, default_build_script, default_run_script, default_shell_path,
    run_script_text, steps_of, FileStep, FileStepView,
};
use crate::name_order::{
    is_name_set, is_text_at_most, lemma_text_total, lemma_text_transitive, text_at_most,
};
use crate::names::{entry_paths, entry_root, new_entry_error, new_entry_paths};
use crate::path::{file_name_of, joined, optional_path, path_of, UnixPath};
use crate::sort::{is_stable_sort, law_stable_sort_is_unique, stable_sort, views, Ranked};
use crate::text::texts;

verus! {

/// What was found at a place that may be a workspace.
#[derive(Debug)]
pub struct WorkspaceProbe {
    pub path: UnixPath,
    pub has_dockerfile: bool,
    pub has_build_script: bool,
}

/// What was found at a place.
#[verifier::ext_equal]
pub struct WorkspaceProbeView {
    pub path: Seq<u8>,
    pub has_dockerfile: bool,
    pub has_build_script: bool,
}

impl View for WorkspaceProbe {
    type V = WorkspaceProbeView;

    open spec fn view(&self) -> WorkspaceProbeView {
        WorkspaceProbeView {
            path: self.path@,
            has_dockerfile: self.has_dockerfile,
            has_build_script: self.has_build_script,
        }
    }
}

/// What was found at the place to import from. The directories directly under it matter only
/// where it has no Dockerfile itself.
#[derive(Debug)]
pub struct ImportProbe {
    pub is_dir: bool,
    pub itself: WorkspaceProbe,
    pub children: Vec<WorkspaceProbe>,
}

/// A workspace to import.
#[verifier::ext_equal]
pub struct ImportSourceView {
    pub name: Seq<char>,
    pub workspace: Seq<u8>,
    pub build_script: Option<Seq<u8>>,
    pub depends_on: Seq<Seq<char>>,
}

/// A workspace to import, under the name of its directory.
#[derive(Debug)]
pub struct ImportSource {
    pub name: String,
    pub workspace: UnixPath,
    pub build_script: Option<UnixPath>,
    pub depends_on: Vec<String>,
}

impl View for ImportSource {
    type V = ImportSourceView;

    open spec fn view(&self) -> ImportSourceView {
        ImportSourceView {
            name: self.name@,
            workspace: self.workspace@,
            build_script: optional_path(self.build_script),
            depends_on: texts(self.depends_on@),
        }
    }
}

/// Workspaces are ordered by name.
impl Ranked for ImportSource {
    open spec fn ranks(a: ImportSourceView, b: ImportSourceView) -> bool {
        text_at_most(a.name, b.name)
    }

    proof fn rank_is_total(a: ImportSourceView, b: ImportSourceView) {
        lemma_text_total(a.name, b.name);
    }

    proof fn rank_is_transitive(a: ImportSourceView, b: ImportSourceView, c: ImportSourceView) {
        lemma_text_transitive(a.name, b.name, c.name);
    }

    fn ranks_below(&self, other: &Self) -> (b: bool) {
        is_text_at_most(self.name.as_str(), other.name.as_str())
    }
}

/// The name under which a workspace is imported: that of its directory, if it is UTF-8.
pub open spec fn import_name(path: Seq<u8>) -> Option<Seq<char>> {
    match file_name_of(path) {
        Some(bytes) => if valid_utf8(bytes) {
            Some(decode_utf8(bytes))
        } else {
            None
        },
        None => None,
    }
}

/// A workspace to import, of which the dependencies are not known yet.
pub open spec fn source_at(probe: WorkspaceProbeView) -> ImportSourceView {
    ImportSourceView {
        name: import_name(probe.path)->0,
        workspace: probe.path,
        build_script: if probe.has_build_script {
            Some(joined(probe.path, path_of("build.sh"@)))
        } else {
            None
        },
        depends_on: Seq::empty(),
    }
}

/// The workspaces at places.
pub open spec fn sources_at(places: Seq<WorkspaceProbeView>) -> Seq<ImportSourceView> {
    places.map_values(|place: WorkspaceProbeView| source_at(place))
}

/// The places that have a Dockerfile.
pub open spec fn importable(probes: Seq<WorkspaceProbeView>) -> Seq<WorkspaceProbeView> {
    probes.filter(|probe: WorkspaceProbeView| probe.has_dockerfile)
}

/// The places from which something is imported: the place itself if it has a Dockerfile, or else
/// what lies directly under it.
pub open spec fn import_places(probe: ImportProbe) -> Seq<WorkspaceProbeView> {
    if probe.itself.has_dockerfile {
        seq![probe.itself@]
    } else {
        importable(views(probe.children@))
    }
}

/// Some place has no name under which it could be imported.
pub open spec fn lacks_name(places: Seq<WorkspaceProbeView>) -> bool {
    exists|i: int| 0 <= i < places.len() && import_name((#[trigger] places[i]).path) is None
}

/// Why nothing can be imported, if that is so.
pub open spec fn discovery_error(probe: ImportProbe) -> Option<ErrorView> {
    let places = import_places(probe);
    if !probe.is_dir {
        Some(ErrorView::ImportNotDirectory { path: probe.itself.path@ })
    } else if lacks_name(places) {
        Some(ErrorView::ImportNameInvalid)
    } else if places.len() == 0 {
        Some(ErrorView::NothingToImport { path: probe.itself.path@ })
    } else {
        None
    }
}

/// The workspace at a place.
pub fn import_source_from_workspace(probe: &WorkspaceProbe) -> (result: Result<ImportSource, Error>)
    ensures
        match result {
            Ok(source) => import_name(probe@.path) is Some && source@ == source_at(probe@),
            Err(e) => import_name(probe@.path) is None && e@ == ErrorView::ImportNameInvalid,
        },
{
    match probe.path.file_name_text() {
        Some(name) => {
            proof {
                encode_utf8_valid_utf8(name@);
                encode_utf8_decode_utf8(name@);
            }
            let build_script: Option<UnixPath> = if probe.has_build_script {
                Some(probe.path.join("build.sh"))
            } else {
                None
            };
            let depends_on: Vec<String> = Vec::new();
            assert(texts(depends_on@) =~= Seq::empty());
            Ok(ImportSource { name, workspace: probe.path.clone(), build_script, depends_on })
        },
        None => Err(Error::ImportNameInvalid),
    }
}

/// The workspaces to import, in the order of their names.
pub fn discover_import_sources(probe: &ImportProbe) -> (result: Result<Vec<ImportSource>, Error>)
    ensures
        match result {
            Ok(sources) => {
                &&& discovery_error(*probe) is None
                &&& is_stable_sort::<ImportSource>(
                    sources_at(import_places(*probe)),
                    views(sources@),
                )
            },
            Err(e) => discovery_error(*probe) == Some(e@),
        },
{
    if !probe.is_dir {
        return Err(Error::ImportNotDirectory { path: probe.itself.path.clone() });
    }
    let ghost places = import_places(*probe);
    let ghost found = sources_at(places);
    let mut sources: Vec<ImportSource> = Vec::new();
    if probe.itself.has_dockerfile {
        match import_source_from_workspace(&probe.itself) {
            Ok(source) => {
                sources.push(source);
                assert(views(sources@) =~= found);
            },
            Err(e) => {
                assert(import_name(places[0].path) is None);
                return Err(e);
            },
        }
        return Ok(sources);
    }
    let ghost all = views(probe.children@);
    let ghost fits = |probe: WorkspaceProbeView| probe.has_dockerfile;
    let mut i: usize = 0;
    proof {
        reveal(Seq::filter);
        assert(views(sources@) =~= sources_at(all.take(0).filter(fits)));
    }
    while i < probe.children.len()
        invariant
            i <= probe.children@.len(),
            all == views(probe.children@),
            fits == (|probe: WorkspaceProbeView| probe.has_dockerfile),
            places == all.filter(fits),
            places == import_places(*probe),
            probe.is_dir,
            !lacks_name(all.take(i as int).filter(fits)),
            views(sources@) == sources_at(all.take(i as int).filter(fits)),
        decreases probe.children@.len() - i,
    {
        let ghost before = all.take(i as int).filter(fits);
        let ghost had = views(sources@);
        proof {
            assert(all[i as int] == probe.children@[i as int]@);
            assert(all.take(i + 1) =~= all.take(i as int).push(all[i as int]));
            all.take(i as int).lemma_filter_push(all[i as int], fits);
        }
        if probe.children[i].has_dockerfile {
            match import_source_from_workspace(&probe.children[i]) {
                Ok(source) => {
                    sources.push(source);
                    proof {
                        let after = before.push(all[i as int]);
                        assert(views(sources@) =~= had.push(source@));
                        assert(sources_at(after) =~= sources_at(before).push(
                            source_at(all[i as int]),
                        ));
                        assert forall|j: int| 0 <= j < after.len() implies import_name(
                            (#[trigger] after[j]).path,
                        ) is Some by {
                            if j < before.len() {
                                assert(after[j] == before[j]);
                                assert(import_name(before[j].path) is Some);
                            }
                        }
                    }
                },
                Err(e) => {
                    proof {
                        all.lemma_filter_contains(fits, i as int);
                        let p = places.index_of(all[i as int]);
                        assert(import_name(places[p].path) is None);
                    }
                    return Err(e);
                },
            }
        }
        i = i + 1;
    }
    assert(all.take(i as int) =~= all);
    if sources.len() == 0 {
        assert(views(sources@).len() == places.len());
        return Err(Error::NothingToImport { path: probe.itself.path.clone() });
    }
    let sorted: Vec<ImportSource> = stable_sort(sources);
    Ok(sorted)
}

/// The names of workspaces.
pub open spec fn source_names(sources: Seq<ImportSourceView>) -> Seq<Seq<char>> {
    sources.map_values(|source: ImportSourceView| source.name)
}

/// `after` is `before` but for the dependencies.
pub open spec fn same_but_dependencies(before: ImportSourceView, after: ImportSourceView) -> bool {
    &&& after.name == before.name
    &&& after.workspace == before.workspace
    &&& after.build_script == before.build_script
}

/// Finds out what each workspace depends on, from its Dockerfile.
pub fn populate_import_dependencies(
    sources: &mut Vec<ImportSource>,
    dockerfiles: &Vec<String>,
    entries: &Vec<EntrySummary>,
)
    requires
        dockerfiles@.len() == old(sources)@.len(),
    ensures
        final(sources)@.len() == old(sources)@.len(),
        forall|i: int|
            0 <= i < old(sources)@.len() ==> {
                &&& same_but_dependencies(old(sources)@[i]@, (#[trigger] final(sources)@[i])@)
                &&& is_name_set(
                    entry_images(
                        base_images(dockerfiles@[i]@),
                        old(sources)@[i]@.name,
                        source_names(views(old(sources)@)),
                        names_of(records(entries@)),
                    ),
                    final(sources)@[i]@.depends_on,
                )
            },
{
    let ghost start = sources@;
    let ghost imported = source_names(views(start));
    let ghost existing = names_of(records(entries@));
    let mut imported_names: Vec<String> = Vec::new();
    let mut i: usize = 0;
    while i < sources.len()
        invariant
            i <= sources@.len(),
            sources@ == start,
            imported_names@.len() == i,
            forall|j: int| 0 <= j < i ==> (#[trigger] imported_names@[j])@ == start[j].name@,
        decreases sources@.len() - i,
    {
        imported_names.push(sources[i].name.clone());
        i = i + 1;
    }
    assert(texts(imported_names@) =~= imported);
    let mut existing_names: Vec<String> = Vec::new();
    let mut i: usize = 0;
    while i < entries.len()
        invariant
            i <= entries@.len(),
            existing_names@.len() == i,
            forall|j: int|
                0 <= j < i ==> (#[trigger] existing_names@[j])@ == entries@[j].config.name@,
        decreases entries@.len() - i,
    {
        existing_names.push(entries[i].config.name.clone());
        i = i + 1;
    }
    assert(texts(existing_names@) =~= existing);
    let mut i: usize = 0;
    while i < sources.len()
        invariant
            i <= sources@.len(),
            sources@.len() == start.len(),
            dockerfiles@.len() == start.len(),
            texts(imported_names@) == imported,
            texts(existing_names@) == existing,
            forall|j: int| i <= j < start.len() ==> #[trigger] sources@[j] == start[j],
            forall|j: int|
                0 <= j < i ==> {
                    &&& same_but_dependencies(start[j]@, (#[trigger] sources@[j])@)
                    &&& is_name_set(
                        entry_images(
                            base_images(dockerfiles@[j]@),
                            start[j]@.name,
                            imported,
                            existing,
                        ),
                        sources@[j]@.depends_on,
                    )
                },
        decreases start.len() - i,
    {
        let depends_on: Vec<String> = infer_import_dependencies(
            dockerfiles[i].as_str(),
            &sources[i].name,
            &imported_names,
            &existing_names,
        );
        sources[i].depends_on = depends_on;
        i = i + 1;
    }
}

/// Refuses an import if any of its workspaces cannot be imported. `taken` tells for each whether
/// there is something at its place already.
pub fn check_import_sources(
    root: &UnixPath,
    sources: &Vec<ImportSource>,
    taken: &Vec<bool>,
) -> (result: Result<(), Error>)
    requires
        taken@.len() == sources@.len(),
    ensures
        match result {
            Ok(()) => forall|i: int|
                0 <= i < sources@.len() ==> new_entry_error(
                    root@,
                    (#[trigger] sources@[i])@.name,
                    taken@[i],
                ) is None,
            Err(e) => exists|i: int|
                {
                    &&& 0 <= i < sources@.len()
                    &&& new_entry_error(root@, (#[trigger] sources@[i])@.name, taken@[i]) == Some(
                        e@,
                    )
                    &&& forall|j: int|
                        0 <= j < i ==> new_entry_error(
                            root@,
                            (#[trigger] sources@[j])@.name,
                            taken@[j],
                        ) is None
                },
        },
{
    let mut i: usize = 0;
    while i < sources.len()
        invariant
            i <= sources@.len(),
            taken@.len() == sources@.len(),
            forall|j: int|
                0 <= j < i ==> new_entry_error(
                    root@,
                    (#[trigger] sources@[j])@.name,
                    taken@[j],
                ) is None,
        decreases sources@.len() - i,
    {
        let source: &ImportSource = &sources[i];
        match new_entry_paths(root, source.name.as_str(), taken[i]) {
            Ok(_) => {},
            Err(e) => {
                assert(sources@[i as int]@.name == source.name@);
                return Err(e);
            },
        }
        i = i + 1;
    }
    Ok(())
}

/// The configuration of an imported workspace.
pub open spec fn imported_config(source: ImportSourceView) -> EntryConfigView {
    EntryConfigView {
        name: source.name,
        workspace: source.workspace,
        managed: false,
        description: None,
        autobuild: false,
        autobuild_order: 100,
        shell: path_of("sh"@),
        depends_on: source.depends_on,
    }
}

/// What importing a workspace changes: its entry gets a configuration, the workspace's own build
/// script or else the usual one, and the usual run script.
pub open spec fn import_steps(root: Seq<u8>, source: ImportSourceView) -> Seq<FileStepView> {
    let paths = crate::entry::paths_under(entry_root(root, source.name));
    seq![
        FileStepView::CreateEntryDir { path: paths.root },
        FileStepView::WriteConfig { path: paths.config, config: imported_config(source) },
        match source.build_script {
            Some(script) => FileStepView::Copy { from: script, to: paths.build_script },
            None => FileStepView::Write {
                path: paths.build_script,
                text: build_script_text(source.name),
            },
        },
        FileStepView::Write { path: paths.run_script, text: run_script_text(source.name) },
    ]
}

/// Imports a workspace: what is to be done, and the place of the new entry.
pub fn import_entry(root: &UnixPath, source: ImportSource) -> (result: (Vec<FileStep>, UnixPath))
    ensures
        steps_of(result.0@) == import_steps(root@, source@),
        result.1@ == entry_root(root@, source@.name),
{
    let paths: EntryPaths = entry_paths(root, source.name.as_str());
    let ghost record = source@;
    let build_script: FileStep = match &source.build_script {
        Some(script) => FileStep::Copy { from: script.clone(), to: paths.build_script.clone() },
        None => FileStep::Write {
            path: paths.build_script.clone(),
            text: default_build_script(source.name.as_str()),
        },
    };
    let run_text: String = default_run_script(source.name.as_str());
    let config: EntryConfig = EntryConfig {
        name: source.name,
        workspace: source.workspace,
        managed: false,
        description: None,
        autobuild: false,
        autobuild_order: 100,
        shell: default_shell_path(),
        depends_on: source.depends_on,
    };
    let mut steps: Vec<FileStep> = Vec::new();
    steps.push(FileStep::CreateEntryDir { path: paths.root.clone() });
    steps.push(FileStep::WriteConfig { path: paths.config, config });
    steps.push(build_script);
    steps.push(FileStep::Write { path: paths.run_script, text: run_text });
    assert(config@ == imported_config(record));
    assert(steps_of(steps@) =~= import_steps(root@, record));
    (steps, paths.root)
}

/// A workspace depends on the entries that its Dockerfile names: never on itself, and only on what
/// is imported with it or recorded before.
pub proof fn law_import_dependencies(
    images: Seq<Seq<char>>,
    name: Seq<char>,
    imported: Seq<Seq<char>>,
    existing: Seq<Seq<char>>,
    depends_on: Seq<Seq<char>>,
    other: Seq<char>,
)
    requires
        is_name_set(entry_images(images, name, imported, existing), depends_on),
    ensures
        depends_on.contains(other) <==> images.contains(other) && other != name && (
        imported.contains(other) || existing.contains(other)),
        depends_on.no_duplicates(),
{
    let wanted = is_entry_image(name, imported, existing);
    let kept = entry_images(images, name, imported, existing);
    if kept.contains(other) {
        images.lemma_filter_contains_rev(wanted, other);
        images.lemma_filter_pred(wanted, kept.index_of(other));
    }
    if images.contains(other) && wanted(other) {
        images.lemma_filter_contains(wanted, images.index_of(other));
    }
}

/// A place with a Dockerfile is all that is imported from it.
pub proof fn law_workspace_is_imported_alone(probe: ImportProbe, sources: Seq<ImportSourceView>)
    requires
        probe.itself.has_dockerfile,
        is_stable_sort::<ImportSource>(sources_at(import_places(probe)), sources),
    ensures
        sources == seq![source_at(probe.itself@)],
{
    let all = sources_at(import_places(probe));
    assert(all =~= seq![source_at(probe.itself@)]);
    assert(is_stable_sort::<ImportSource>(all, all));
    law_stable_sort_is_unique::<ImportSource>(all, all, sources);
}

/// From a place without a Dockerfile, exactly the directories under it that have one are imported.
pub proof fn law_children_are_imported(
    probe: ImportProbe,
    sources: Seq<ImportSourceView>,
    source: ImportSourceView,
)
    requires
        !probe.itself.has_dockerfile,
        is_stable_sort::<ImportSource>(sources_at(import_places(probe)), sources),
    ensures
        sources.contains(source) <==> exists|i: int|
            0 <= i < probe.children@.len() && (#[trigger] probe.children@[i]).has_dockerfile
                && source == source_at(probe.children@[i]@),
{
    let children = views(probe.children@);
    let fits = |probe: WorkspaceProbeView| probe.has_dockerfile;
    let places = import_places(probe);
    let all = sources_at(places);
    vstd::seq_lib::to_multiset_contains(all, source);
    vstd::seq_lib::to_multiset_contains(sources, source);
    if sources.contains(source) {
        let p = all.index_of(source);
        assert(places.contains(places[p]));
        children.lemma_filter_contains_rev(fits, places[p]);
        children.lemma_filter_pred(fits, p);
        let i = children.index_of(places[p]);
        assert(probe.children@[i]@ == places[p]);
    }
    if exists|i: int|
        0 <= i < probe.children@.len() && (#[trigger] probe.children@[i]).has_dockerfile && source
            == source_at(probe.children@[i]@) {
        let i = choose|i: int|
            0 <= i < probe.children@.len() && (#[trigger] probe.children@[i]).has_dockerfile
                && source == source_at(probe.children@[i]@);
        assert(children[i] == probe.children@[i]@);
        children.lemma_filter_contains(fits, i);
        let p = places.index_of(children[i]);
        assert(all[p] == source);
    }
}

} // verus!
