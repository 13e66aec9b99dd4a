//! What is found: workspaces to import, what they depend on, editors, and the files to work with.

use vstd::prelude::*;
use vstd::string::*;

use crate::app::{ensure_cmd_override, open_entry_path};
use crate::command_laws::{law_opening_overwrites_nothing, law_override_is_made_once};
use crate::dockerfile::{base_images, infer_import_dependencies, parse_dockerfile_from_images};
use crate::editor::{editor_command, is_plain, plain_words, Editor};
use crate::editor_laws::{
    law_editor_is_chosen_in_turn, law_words_are_program_and_arguments, says_nothing,
};
use crate::entries::names_of;
use crate::entry::{
    override_config, override_dir, override_run_script, records, CmdOverrideConfig, EntryConfig,
    EntryPaths, EntrySummary, ScriptKind,
};
use crate::entry_laws::law_import_needs_something;
use crate::error::{Error, ErrorView};
use crate::files::{steps_of, FileStep};
use crate::image_laws::law_dependencies_are_in_order;
use crate::import::{
    check_import_sources, discover_import_sources, import_name, import_places,
    import_source_from_workspace, law_children_are_imported, law_workspace_is_imported_alone,
    populate_import_dependencies, same_but_dependencies, source_at, source_names, sources_at,
    ImportProbe, ImportSource, WorkspaceProbe,
};
use crate::names::new_entry_error;
use crate::path::{absolute, file_name_of, joined, path_of, same_path, shown, UnixPath};
use crate::script::{resolve_run_target, resolve_shell_command, ResolvedRunTarget};
use crate::selection_laws::law_imports_are_sorted;
use crate::sort::views;
use crate::text::texts;
use crate::text_laws::comes_before;

verus! {

/// A workspace is found with its place and its own build script, if it has one, and with no
/// dependencies yet.
pub proof fn law_what_a_workspace_is(probe: &WorkspaceProbe, result: Result<ImportSource, Error>)
    requires
        call_ensures(import_source_from_workspace, (probe,), result),
    ensures
        result is Ok <==> import_name(probe.path@) is Some,
        result matches Ok(source) ==> {
            &&& Some(source.name@) == import_name(probe.path@)
            &&& source.workspace@ == probe.path@
            &&& source.build_script is Some <==> probe.has_build_script
            &&& probe.has_build_script ==> source.build_script->0@ == joined(
                probe.path@,
                path_of("build.sh"@),
            )
            &&& source.depends_on@.len() == 0
        },
        result matches Err(e) ==> e@ == ErrorView::ImportNameInvalid,
{
    if let Ok(source) = result {
        assert(texts(source.depends_on@).len() == source.depends_on@.len());
    }
}

/// What is found is the place itself if it has a Dockerfile, or else exactly the directories under it
/// that have one, in dictionary order of their names.
pub proof fn law_what_is_found(
    probe: &ImportProbe,
    result: Result<Vec<ImportSource>, Error>,
    i: int,
)
    requires
        call_ensures(discover_import_sources, (probe,), result),
    ensures
        result is Ok ==> probe.is_dir,
        !probe.is_dir ==> result is Err && result->Err_0@ == (ErrorView::ImportNotDirectory {
            path: probe.itself.path@,
        }),
        probe.is_dir && probe.itself.has_dockerfile ==> (result is Ok <==> import_name(
            probe.itself.path@,
        ) is Some),
        probe.is_dir && !probe.itself.has_dockerfile && (forall|j: int|
            0 <= j < probe.children@.len() ==> !(#[trigger] probe.children@[j]).has_dockerfile)
            ==> result is Err && result->Err_0@ == (ErrorView::NothingToImport {
            path: probe.itself.path@,
        }),
        result matches Ok(sources) ==> {
            &&& sources@.len() > 0
            &&& probe.itself.has_dockerfile ==> sources@.len() == 1 && sources@[0]@ == source_at(
                probe.itself@,
            )
            &&& !probe.itself.has_dockerfile && 0 <= i < sources@.len() ==> exists|j: int|
                0 <= j < probe.children@.len() && (#[trigger] probe.children@[j]).has_dockerfile
                    && sources@[i]@ == source_at(probe.children@[j]@)
            &&& !probe.itself.has_dockerfile && 0 <= i < probe.children@.len()
                && probe.children@[i].has_dockerfile ==> exists|j: int|
                0 <= j < sources@.len() && (#[trigger] sources@[j])@ == source_at(
                    probe.children@[i]@,
                )
            &&& forall|a: int, b: int|
                0 <= a < b < sources@.len() ==> (#[trigger] sources@[a]).name@ == (
                #[trigger] sources@[b]).name@ || comes_before(
                    sources@[a].name@,
                    sources@[b].name@,
                )
        },
{
    law_import_needs_something(*probe);
    if let Ok(sources) = result {
        let list = views(sources@);
        let found = sources_at(import_places(*probe));
        assert(list.len() == sources@.len());
        assert forall|a: int| 0 <= a < sources@.len() implies (#[trigger] sources@[a])@
            == list[a] by {}
        law_imports_are_sorted(found, list, Seq::empty());
        assert forall|a: int, b: int| 0 <= a < b < sources@.len() implies (
        #[trigger] sources@[a]).name@ == (#[trigger] sources@[b]).name@ || comes_before(
            sources@[a].name@,
            sources@[b].name@,
        ) by {
            assert(list[a].name == sources@[a].name@ && list[b].name == sources@[b].name@);
        }
        if probe.itself.has_dockerfile {
            law_workspace_is_imported_alone(*probe, list);
        } else {
            if 0 <= i < sources@.len() {
                assert(list.contains(list[i]));
                law_children_are_imported(*probe, list, list[i]);
            }
            if 0 <= i < probe.children@.len() && probe.children@[i].has_dockerfile {
                law_children_are_imported(*probe, list, source_at(probe.children@[i]@));
                let j = list.index_of(source_at(probe.children@[i]@));
                assert(sources@[j]@ == list[j]);
            }
            let c = choose|c: int|
                0 <= c < probe.children@.len() && (#[trigger] probe.children@[c]).has_dockerfile;
            law_children_are_imported(*probe, list, source_at(probe.children@[c]@));
        }
    }
}

/// A Dockerfile makes its entry depend on exactly the images that it builds upon and that are other
/// entries, imported with it or recorded before, in dictionary order.
pub proof fn law_what_a_dockerfile_needs(
    content: &str,
    name: &String,
    imported: &Vec<String>,
    existing: &Vec<String>,
    images: Vec<String>,
    depends_on: Vec<String>,
    other: Seq<char>,
)
    requires
        call_ensures(parse_dockerfile_from_images, (content,), images),
        call_ensures(infer_import_dependencies, (content, name, imported, existing), depends_on),
    ensures
        texts(images@) == base_images(content@),
        texts(depends_on@).contains(other) <==> texts(images@).contains(other) && other != name@ && (
        texts(imported@).contains(other) || texts(existing@).contains(other)),
        forall|i: int, j: int|
            0 <= i < j < depends_on@.len() ==> comes_before(
                (#[trigger] depends_on@[i])@,
                (#[trigger] depends_on@[j])@,
            ),
{
    let list = texts(depends_on@);
    law_dependencies_are_in_order(
        texts(images@),
        name@,
        texts(imported@),
        texts(existing@),
        list,
    );
    assert forall|i: int, j: int| 0 <= i < j < depends_on@.len() implies comes_before(
        (#[trigger] depends_on@[i])@,
        (#[trigger] depends_on@[j])@,
    ) by {
        assert(list[i] == depends_on@[i]@ && list[j] == depends_on@[j]@);
    }
}

/// Each workspace gets the dependencies that its own Dockerfile tells of, on workspaces that are
/// imported with it and on recorded entries. Nothing else of it changes.
pub proof fn law_what_imports_depend_on(
    sources: &mut Vec<ImportSource>,
    dockerfiles: &Vec<String>,
    entries: &Vec<EntrySummary>,
    i: int,
    other: Seq<char>,
)
    requires
        dockerfiles@.len() == old(sources)@.len(),
        call_ensures(populate_import_dependencies, (sources, dockerfiles, entries), ()),
        0 <= i < old(sources)@.len(),
    ensures
        final(sources)@.len() == old(sources)@.len(),
        final(sources)@[i].name@ == old(sources)@[i].name@,
        final(sources)@[i].workspace@ == old(sources)@[i].workspace@,
        final(sources)@[i]@.build_script == old(sources)@[i]@.build_script,
        texts(final(sources)@[i].depends_on@).contains(other) <==> base_images(
            dockerfiles@[i]@,
        ).contains(other) && other != old(sources)@[i].name@ && ((exists|j: int|
            0 <= j < old(sources)@.len() && (#[trigger] old(sources)@[j]).name@ == other) || (
        exists|j: int|
            0 <= j < entries@.len() && (#[trigger] entries@[j]).config.name@ == other)),
{
    let start = old(sources)@;
    let imported = source_names(views(start));
    let existing = names_of(records(entries@));
    let after = final(sources)@[i]@;
    assert(same_but_dependencies(start[i]@, after));
    law_dependencies_are_in_order(
        base_images(dockerfiles@[i]@),
        start[i]@.name,
        imported,
        existing,
        after.depends_on,
    );
    assert(after.depends_on == texts(final(sources)@[i].depends_on@));
    if imported.contains(other) {
        let j = imported.index_of(other);
        assert(start[j].name@ == other);
    }
    if exists|j: int| 0 <= j < start.len() && (#[trigger] start[j]).name@ == other {
        let j = choose|j: int| 0 <= j < start.len() && (#[trigger] start[j]).name@ == other;
        assert(imported[j] == other);
    }
    if existing.contains(other) {
        let j = existing.index_of(other);
        assert(entries@[j].config.name@ == other);
    }
    if exists|j: int| 0 <= j < entries@.len() && (#[trigger] entries@[j]).config.name@ == other {
        let j = choose|j: int|
            0 <= j < entries@.len() && (#[trigger] entries@[j]).config.name@ == other;
        assert(existing[j] == other);
    }
}

/// An import is refused exactly if one of its workspaces cannot become an entry.
pub proof fn law_which_imports_are_refused(
    root: &UnixPath,
    sources: &Vec<ImportSource>,
    taken: &Vec<bool>,
    result: Result<(), Error>,
)
    requires
        taken@.len() == sources@.len(),
        call_ensures(check_import_sources, (root, sources, taken), result),
    ensures
        result is Ok <==> forall|i: int|
            0 <= i < sources@.len() ==> new_entry_error(
                root@,
                (#[trigger] sources@[i]).name@,
                taken@[i],
            ) is None,
        result matches Err(e) ==> exists|i: int|
            0 <= i < sources@.len() && new_entry_error(
                root@,
                (#[trigger] sources@[i]).name@,
                taken@[i],
            ) == Some(e@),
{
    if result is Ok {
        assert forall|i: int| 0 <= i < sources@.len() implies new_entry_error(
            root@,
            (#[trigger] sources@[i]).name@,
            taken@[i],
        ) is None by {
            assert(sources@[i]@.name == sources@[i].name@);
        }
    } else {
        let e = result->Err_0;
        let i = choose|i: int|
            0 <= i < sources@.len() && new_entry_error(
                root@,
                (#[trigger] sources@[i])@.name,
                taken@[i],
            ) == Some(e@);
        assert(new_entry_error(root@, sources@[i].name@, taken@[i]) == Some(e@));
    }
}

/// A plain command of the environment names the editor by its first word, and the others are its
/// arguments.
pub proof fn law_which_editor_opens(
    visual: Option<String>,
    editor: Option<String>,
    result: Result<Editor, Error>,
)
    requires
        call_ensures(Editor::from_env, (visual, editor), result),
    ensures
        ({
            let raw = if !says_nothing(visual) {
                visual->0@
            } else if !says_nothing(editor) {
                editor->0@
            } else {
                seq!['v', 'i']
            };
            is_plain(raw) ==> {
                &&& result is Ok <==> plain_words(raw).len() > 0
                &&& result matches Ok(e) ==> seq![e.program@] + texts(e.args@) == plain_words(raw)
                &&& result matches Err(e) ==> e@ == ErrorView::EditorEmpty
            }
        }),
{
    law_editor_is_chosen_in_turn(visual, editor);
    let raw = editor_command(visual, editor);
    law_words_are_program_and_arguments(raw, plain_words(raw));
}

/// The words of a command name its editor. Without words, the command is refused.
pub proof fn law_which_words_name_an_editor(
    raw: &str,
    words: Option<Vec<String>>,
    result: Result<Editor, Error>,
)
    requires
        call_ensures(Editor::from_words, (raw, words), result),
    ensures
        result is Ok <==> words is Some && words->0@.len() > 0,
        result matches Ok(e) ==> seq![e.program@] + texts(e.args@) == texts(words->0@),
        result matches Err(e) ==> e@ == (if words is Some {
            ErrorView::EditorEmpty
        } else {
            ErrorView::EditorUnreadable { raw: raw@ }
        }),
{
    if let Some(list) = words {
        assert(texts(list@).len() == list@.len());
        law_words_are_program_and_arguments(raw@, texts(list@));
    }
}

/// An override runs exactly from the directory that it is stored for, and for it. Otherwise the
/// entry's own script runs, for the workspace.
pub proof fn law_what_runs_where(
    paths: &EntryPaths,
    config: &EntryConfig,
    scope: &UnixPath,
    stored: Option<CmdOverrideConfig>,
    target: ResolvedRunTarget,
)
    requires
        call_ensures(resolve_run_target, (paths, config, scope, stored), target),
    ensures
        ({
            let overridden = stored is Some && same_path(stored->0.path@, scope@);
            &&& overridden ==> target.script_path@ == override_run_script(paths.root@, scope@)
                && target.execution_dir@ == scope@ && target.scope_label@ == shown(scope@)
            &&& !overridden ==> target.script_path@ == paths.run_script@ && target.execution_dir@
                == config.workspace@ && target.scope_label@ == "default"@
        }),
{
}

/// The shell is used as it is configured, but for one that is missing at an absolute path.
pub proof fn law_which_shell_runs(shell: &UnixPath, exists: bool, program: UnixPath)
    requires
        call_ensures(resolve_shell_command, (shell, exists), program),
    ensures
        exists || !absolute(shell@) ==> program@ == shell@,
        !exists && absolute(shell@) ==> program@ == (match file_name_of(
            shell@,
        ) {
            Some(name) => name,
            None => shell@,
        }),
{
}

/// Opening a file makes its directory, and a Dockerfile that is missing. Opening an override makes it
/// only if it is missing, for the directory that it is for and from the entry's own script.
pub proof fn law_what_is_done_before_opening(
    target: &UnixPath,
    kind: ScriptKind,
    opened: Vec<FileStep>,
    paths: &EntryPaths,
    scope: &UnixPath,
    exists: bool,
    made: Vec<FileStep>,
)
    requires
        call_ensures(open_entry_path, (target, kind), opened),
        call_ensures(ensure_cmd_override, (paths, scope, exists), made),
    ensures
        opened@.len() == (if kind == ScriptKind::Dockerfile {
            2nat
        } else {
            1
        }),
        opened@[0] matches FileStep::CreateParent { path } && path@ == target@,
        kind == ScriptKind::Dockerfile ==> (opened@[1] matches FileStep::WriteIfMissing {
            path,
            text,
        } && path@ == target@ && text@ == "FROM alpine:latest\n"@),
        exists ==> made@.len() == 0,
        !exists ==> {
            &&& made@.len() == 2
            &&& made@[0] matches FileStep::WriteScope { path, config } && path@ == override_config(
                paths.root@,
                scope@,
            ) && config.path@ == scope@
            &&& made@[1] matches FileStep::CopyText { from, to } && from@ == paths.run_script@
                && to@ == override_run_script(paths.root@, scope@)
        },
{
    law_opening_overwrites_nothing(target@, kind, 1);
    law_override_is_made_once(paths@, scope@);
    let (first, second) = (steps_of(opened@), steps_of(made@));
    assert(first.len() == opened@.len() && second.len() == made@.len());
    assert(first[0] == opened@[0]@);
    if kind == ScriptKind::Dockerfile {
        assert(first[1] == opened@[1]@);
    }
    if !exists {
        assert(second[0] == made@[0]@ && second[1] == made@[1]@);
    }
}

/// The files of an override lie in its directory, and that among the overrides of its entry.
pub proof fn law_where_overrides_lie(
    paths: &EntryPaths,
    scope: &UnixPath,
    all: UnixPath,
    dir: UnixPath,
    config: UnixPath,
    script: UnixPath,
)
    requires
        call_ensures(EntryPaths::cmd_overrides_root, (paths,), all),
        call_ensures(EntryPaths::cmd_override_dir, (paths, scope), dir),
        call_ensures(EntryPaths::cmd_override_config, (paths, scope), config),
        call_ensures(EntryPaths::cmd_override_run_script, (paths, scope), script),
    ensures
        all@ == joined(paths.root@, path_of("cmd-overrides"@)),
        dir@ == override_dir(paths.root@, scope@),
        config@ == joined(dir@, path_of("scope.toml"@)),
        script@ == joined(dir@, path_of("run.sh"@)),
{
}

} // verus!
