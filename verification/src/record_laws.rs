//! What is known of a record is all that it holds, part by part.

use vstd::prelude::*;

use crate::editor::Editor;
use crate::entries::{names_of, BuildRequest, BuildRequestView};
use crate::entry::{records, CmdOverrideConfig, EntryConfig, EntryPaths, EntrySummary, ScriptKind};
use crate::error::{Error, ErrorView};
use crate::files::{steps_of, FileStep, FileStepView};
use crate::graph::BuildExecutionGraph;
use crate::import::{
    same_but_dependencies, source_names, ImportSource, ImportSourceView, WorkspaceProbe,
};
use crate::path::UnixPath;
use crate::script::{failure_of, BuildTaskOutcome, ResolvedRunTarget, ScriptCommand};
use crate::sort::views;
use crate::text::texts;

verus! {

/// A path is its bytes.
pub proof fn law_path_is_its_bytes(path: UnixPath)
    ensures
        path@ == path.bytes@,
{
}

/// A list of strings is the texts of its strings, one by one.
pub proof fn law_list_is_its_texts(list: Seq<String>, i: int)
    requires
        0 <= i < list.len(),
    ensures
        texts(list).len() == list.len(),
        texts(list)[i] == list[i]@,
{
}

/// A configuration is all that it says.
pub proof fn law_configuration_is_what_it_says(config: EntryConfig)
    ensures
        config@.name == config.name@,
        config@.workspace == config.workspace.bytes@,
        config@.managed == config.managed,
        config@.description is Some <==> config.description is Some,
        config.description is Some ==> config@.description->0 == config.description->0@,
        config@.autobuild == config.autobuild,
        config@.autobuild_order == config.autobuild_order,
        config@.shell == config.shell.bytes@,
        config@.depends_on.len() == config.depends_on@.len(),
        forall|i: int|
            0 <= i < config.depends_on@.len() ==> #[trigger] config@.depends_on[i]
                == config.depends_on@[i]@,
{
}

/// An entry is its configuration and its paths.
pub proof fn law_entry_is_configuration_and_paths(entry: EntrySummary)
    ensures
        entry@.config == entry.config@,
        entry@.paths.root == entry.paths.root.bytes@,
        entry@.paths.config == entry.paths.config.bytes@,
        entry@.paths.build_script == entry.paths.build_script.bytes@,
        entry@.paths.run_script == entry.paths.run_script.bytes@,
{
}

/// The paths of an entry are told apart.
pub proof fn law_paths_are_told_apart(paths: EntryPaths, scope: CmdOverrideConfig)
    ensures
        paths@.root == paths.root.bytes@,
        paths@.config == paths.config.bytes@,
        paths@.build_script == paths.build_script.bytes@,
        paths@.run_script == paths.run_script.bytes@,
        scope@ == scope.path.bytes@,
{
}

/// A list of entries records each of them, in order, and so are their names listed.
pub proof fn law_entries_are_recorded_in_order(entries: Seq<EntrySummary>, i: int)
    requires
        0 <= i < entries.len(),
    ensures
        records(entries).len() == entries.len(),
        records(entries)[i] == entries[i]@,
        names_of(records(entries)).len() == entries.len(),
        names_of(records(entries))[i] == entries[i].config.name@,
        views(entries).len() == entries.len(),
        views(entries)[i] == entries[i]@,
{
}

/// What was found at a place is told part by part.
pub proof fn law_findings_are_told(probe: WorkspaceProbe)
    ensures
        probe@.path == probe.path.bytes@,
        probe@.has_dockerfile == probe.has_dockerfile,
        probe@.has_build_script == probe.has_build_script,
{
}

/// A workspace to import is told part by part.
pub proof fn law_import_is_told(source: ImportSource)
    ensures
        source@.name == source.name@,
        source@.workspace == source.workspace.bytes@,
        source@.build_script is Some <==> source.build_script is Some,
        source.build_script is Some ==> source@.build_script->0 == source.build_script->0.bytes@,
        source@.depends_on.len() == source.depends_on@.len(),
        forall|i: int|
            0 <= i < source.depends_on@.len() ==> #[trigger] source@.depends_on[i]
                == source.depends_on@[i]@,
{
}

/// The names of workspaces are listed in their order.
pub proof fn law_imports_are_named_in_order(sources: Seq<ImportSourceView>, i: int)
    requires
        0 <= i < sources.len(),
    ensures
        source_names(sources).len() == sources.len(),
        source_names(sources)[i] == sources[i].name,
{
}

/// What is found out about the dependencies of a workspace changes nothing else of it.
pub proof fn law_dependencies_are_added(before: ImportSourceView, after: ImportSourceView)
    requires
        same_but_dependencies(before, after),
    ensures
        after == (ImportSourceView { depends_on: after.depends_on, ..before }),
{
}

/// What a run runs is told part by part.
pub proof fn law_run_is_told(target: ResolvedRunTarget)
    ensures
        target@.script_path == target.script_path.bytes@,
        target@.scope_label == target.scope_label@,
        target@.execution_dir == target.execution_dir.bytes@,
{
}

/// A command is told part by part, and so are its variables, in order.
pub proof fn law_command_is_told(command: ScriptCommand, i: int)
    requires
        0 <= i < command.env@.len(),
    ensures
        command@.program == command.program.bytes@,
        command@.script == command.script.bytes@,
        command@.current_dir == command.current_dir.bytes@,
        command@.env.len() == command.env@.len(),
        command@.env[i].0 == command.env@[i].0@,
        command@.env[i].1 == command.env@[i].1.bytes@,
{
}

/// An editor is its program and its arguments, in order.
pub proof fn law_editor_is_told(editor: Editor, i: int)
    requires
        0 <= i < editor.args@.len(),
    ensures
        editor@.program == editor.program@,
        editor@.args.len() == editor.args@.len(),
        editor@.args[i] == editor.args@[i]@,
{
}

/// A request is told as it is.
pub proof fn law_request_is_told(request: BuildRequest, name: String)
    ensures
        request == (BuildRequest::One { name }) ==> request@ == (BuildRequestView::One {
            name: name@,
        }),
        request@ is One <==> request is One,
        request@ is Autobuild <==> request is Autobuild,
        request@ is All <==> request is All,
{
}

/// A build either succeeds or fails with a message.
pub proof fn law_failure_has_its_message(outcome: BuildTaskOutcome, message: String)
    ensures
        failure_of(outcome) is None <==> outcome is Succeeded,
        outcome == BuildTaskOutcome::Failed(message) ==> failure_of(outcome) == Some(message@),
{
}

/// A list of changes is its changes, one by one.
pub proof fn law_changes_are_listed(steps: Seq<FileStep>, i: int)
    requires
        0 <= i < steps.len(),
    ensures
        steps_of(steps).len() == steps.len(),
        steps_of(steps)[i] == steps[i]@,
{
}

/// A change is told with the path that it is made to and all that is written there.
pub proof fn law_changes_are_told(
    path: UnixPath,
    to: UnixPath,
    text: String,
    config: EntryConfig,
    scope: CmdOverrideConfig,
)
    ensures
        (FileStep::CreateEntryDir { path })@ == (FileStepView::CreateEntryDir {
            path: path.bytes@,
        }),
        (FileStep::CreateWorkspace { path })@ == (FileStepView::CreateWorkspace {
            path: path.bytes@,
        }),
        (FileStep::CreateParent { path })@ == (FileStepView::CreateParent { path: path.bytes@ }),
        (FileStep::WriteConfig { path, config })@ == (FileStepView::WriteConfig {
            path: path.bytes@,
            config: config@,
        }),
        (FileStep::WriteScope { path, config: scope })@ == (FileStepView::WriteScope {
            path: path.bytes@,
            scope: scope.path.bytes@,
        }),
        (FileStep::Write { path, text })@ == (FileStepView::Write {
            path: path.bytes@,
            text: text@,
        }),
        (FileStep::WriteIfMissing { path, text })@ == (FileStepView::WriteIfMissing {
            path: path.bytes@,
            text: text@,
        }),
        (FileStep::Copy { from: path, to })@ == (FileStepView::Copy {
            from: path.bytes@,
            to: to.bytes@,
        }),
        (FileStep::CopyText { from: path, to })@ == (FileStepView::CopyText {
            from: path.bytes@,
            to: to.bytes@,
        }),
        (FileStep::RemoveEntryDir { path })@ == (FileStepView::RemoveEntryDir {
            path: path.bytes@,
        }),
{
}

/// An error is told with all that it is about.
pub proof fn law_errors_are_told(
    name: String,
    status: String,
    path: UnixPath,
    kind: ScriptKind,
    failed: usize,
    skipped: usize,
)
    ensures
        (Error::NameUnsupported { name })@ == (ErrorView::NameUnsupported { name: name@ }),
        (Error::EntryExists { name, root: path })@ == (ErrorView::EntryExists {
            name: name@,
            root: path.bytes@,
        }),
        (Error::EntryNotFound { root: path })@ == (ErrorView::EntryNotFound { root: path.bytes@ }),
        (Error::ImportNotDirectory { path })@ == (ErrorView::ImportNotDirectory {
            path: path.bytes@,
        }),
        (Error::NothingToImport { path })@ == (ErrorView::NothingToImport { path: path.bytes@ }),
        (Error::DependencyCycle { name })@ == (ErrorView::DependencyCycle { name: name@ }),
        (Error::UnknownEntry { name })@ == (ErrorView::UnknownEntry { name: name@ }),
        (Error::BuildFailed { failed, skipped })@ == (ErrorView::BuildFailed {
            failed: failed as nat,
            skipped: skipped as nat,
        }),
        (Error::ScriptFailed { kind, name, status })@ == (ErrorView::ScriptFailed {
            kind,
            name: name@,
            status: status@,
        }),
        (Error::EditorUnreadable { raw: name })@ == (ErrorView::EditorUnreadable { raw: name@ }),
        (Error::EditorFailed { program: name, status })@ == (ErrorView::EditorFailed {
            program: name@,
            status: status@,
        }),
        Error::RootUnknown@ == ErrorView::RootUnknown,
        Error::NameEmpty@ == ErrorView::NameEmpty,
        Error::ImportNameInvalid@ == ErrorView::ImportNameInvalid,
        Error::BuildTargetConflict@ == ErrorView::BuildTargetConflict,
        Error::BuildTargetMissing@ == ErrorView::BuildTargetMissing,
        Error::Aborted@ == ErrorView::Aborted,
        Error::ScopeConflict@ == ErrorView::ScopeConflict,
        Error::EditorEmpty@ == ErrorView::EditorEmpty,
{
}

/// A graph is told node by node.
pub proof fn law_graph_is_told(graph: BuildExecutionGraph, i: int)
    requires
        0 <= i < graph.nodes@.len(),
    ensures
        graph.names().len() == graph.order@.len(),
        forall|k: int| 0 <= k < graph.order@.len() ==> #[trigger] graph.names()[k]
            == graph.order@[k]@,
        graph.entries().len() == graph.nodes@.len(),
        graph.deps().len() == graph.nodes@.len(),
        graph.dependents().len() == graph.nodes@.len(),
        graph.remaining().len() == graph.nodes@.len(),
        graph.states().len() == graph.nodes@.len(),
        graph.entries()[i] == graph.nodes@[i].entry@,
        graph.states()[i] == graph.nodes@[i].state,
        graph.remaining()[i] == graph.nodes@[i].remaining_dependencies,
        graph.deps()[i].len() == graph.nodes@[i].dependencies@.len(),
        graph.dependents()[i].len() == graph.nodes@[i].dependents@.len(),
        forall|k: int|
            0 <= k < graph.nodes@[i].dependencies@.len() ==> #[trigger] graph.deps()[i][k]
                == graph.nodes@[i].dependencies@[k],
        forall|k: int|
            0 <= k < graph.nodes@[i].dependents@.len() ==> #[trigger] graph.dependents()[i][k]
                == graph.nodes@[i].dependents@[k],
{
}

} // verus!
