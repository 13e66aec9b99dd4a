//! What comes of calls, told of what goes in and what comes out.

use vstd::prelude::*;
use vstd::string::*;

use crate::app::{
    default_root, dispatch, handle_path, resolve_cmd_scope, task_of, App, CmdScope, Task,
};
use crate::build_run::BuildRun;
use crate::cli::{Commands, PathKind};
use crate::command_laws::{
    is_yes, law_build_runs_in_the_workspace, law_import_records_what_was_found,
    law_new_entry_is_as_asked, law_only_a_yes_confirms, law_removal_needs_a_yes,
    law_run_tells_the_directory_it_is_for, sets,
};
use crate::course_laws::{equals, law_counts};
use crate::editor::Editor;
use crate::entries::{
    begin_build, build_targets, handle_build, load_entries, selected, targets_of, BuildRequest,
    BuildRequestView,
};
use crate::entry::{
    default_autobuild_order, default_shell, optional_text, override_config, records, EntryConfig,
    EntryPaths, EntrySummary, EntrySummaryView, ScriptKind,
};
use crate::error::{Error, ErrorView};
use crate::files::{default_dockerfile, default_shell_path, steps_of, FileStep, FileStepView};
use crate::graph::BuildNodeState;
use crate::import::{import_entry, ImportSource};
use crate::names::{ensure_entry_exists, entry_root, new_entry_error, new_entry_paths};
use crate::number::decimal;
use crate::path::{joined, optional_path, path_of, shown, UnixPath};
use crate::progress::finish_build;
use crate::removal::handle_rm;
use crate::report::{cmd_scope, confirm_rm, rm_prompt};
use crate::script::{
    build_command, build_finished, build_log_path, run_command, script_finished, stored_override,
    BuildTaskOutcome, ResolvedRunTarget, ScriptCommand,
};
use crate::selection_laws::{
    law_autobuild_alone_selects, law_listing_is_sorted, law_targets_are_what_is_asked_for,
};
use crate::text::{texts, white_space};
use crate::text_laws::is_blank;

verus! {

/// An entry that was found is listed exactly if everything is or if it has autobuild set, and
/// nothing else is listed. What has the lower place in autobuilds is listed first.
pub proof fn law_what_is_listed(
    found: &Vec<EntrySummary>,
    autobuild_only: bool,
    list: Vec<EntrySummary>,
    entry: EntrySummaryView,
)
    requires
        call_ensures(load_entries, (found, autobuild_only), list),
    ensures
        records(list@).contains(entry) <==> records(found@).contains(entry) && (!autobuild_only
            || entry.config.autobuild),
        forall|i: int, j: int|
            0 <= i < j < list@.len() ==> (#[trigger] list@[i]).config.autobuild_order <= (
            #[trigger] list@[j]).config.autobuild_order,
        !autobuild_only ==> list@.len() == found@.len(),
{
    let all = records(found@);
    let shown = records(list@);
    law_autobuild_alone_selects(all, entry);
    vstd::seq_lib::to_multiset_contains(shown, entry);
    vstd::seq_lib::to_multiset_contains(selected(all, autobuild_only), entry);
    vstd::seq_lib::to_multiset_len(shown);
    vstd::seq_lib::to_multiset_len(selected(all, autobuild_only));
    law_listing_is_sorted(all, autobuild_only, shown, 0, Seq::empty());
    assert forall|i: int, j: int| 0 <= i < j < list@.len() implies (
    #[trigger] list@[i]).config.autobuild_order <= (
    #[trigger] list@[j]).config.autobuild_order by {
        assert(shown[i] == list@[i]@ && shown[j] == list@[j]@);
        assert(shown[i].config.autobuild_order <= shown[j].config.autobuild_order);
    }
}

/// An entry is built by an autobuild exactly if it has autobuild set, and by a build of everything
/// in any case. A build by name builds what has that name.
pub proof fn law_what_is_built(
    request: &BuildRequest,
    entries: &Vec<EntrySummary>,
    targets: Vec<String>,
    name: String,
)
    requires
        call_ensures(build_targets, (request, entries), targets),
    ensures
        request is Autobuild ==> (texts(targets@).contains(name@) <==> exists|i: int|
            0 <= i < entries@.len() && (#[trigger] entries@[i]).config.name@ == name@
                && entries@[i].config.autobuild),
        request is All ==> targets@.len() == entries@.len() && forall|i: int|
            0 <= i < targets@.len() ==> (#[trigger] targets@[i])@ == entries@[i].config.name@,
        *request == (BuildRequest::One { name }) ==> targets@.len() == 1 && targets@[0]@ == name@,
{
    let all = records(entries@);
    law_targets_are_what_is_asked_for(all, name@);
    let list = texts(targets@);
    assert(list.len() == targets@.len());
    assert forall|i: int| 0 <= i < targets@.len() implies (#[trigger] targets@[i])@ == list[i] by {}
    if request is Autobuild {
        if list.contains(name@) {
            let i = choose|i: int|
                0 <= i < all.len() && (#[trigger] all[i]).config.name == name@
                    && all[i].config.autobuild;
            assert(entries@[i]@ == all[i]);
        }
        if exists|i: int|
            0 <= i < entries@.len() && (#[trigger] entries@[i]).config.name@ == name@
                && entries@[i].config.autobuild {
            let i = choose|i: int|
                0 <= i < entries@.len() && (#[trigger] entries@[i]).config.name@ == name@
                    && entries@[i].config.autobuild;
            assert(all[i] == entries@[i]@);
        }
    }
}

/// Nothing is built exactly if everything is asked for and there is no entry, or an autobuild is and no
/// entry takes part. What is asked for by name is always looked for.
pub proof fn law_when_something_is_built(
    request: &BuildRequest,
    entries: &Vec<EntrySummary>,
    max_jobs: usize,
    result: Result<Option<BuildRun>, Error>,
)
    requires
        call_ensures(begin_build, (request, entries, max_jobs), result),
    ensures
        request is One ==> result != Ok::<Option<BuildRun>, Error>(None),
        request is All ==> (result == Ok::<Option<BuildRun>, Error>(None) <==> entries@.len() == 0),
        request is Autobuild ==> (result == Ok::<Option<BuildRun>, Error>(None) <==> forall|i: int|
            0 <= i < entries@.len() ==> !(#[trigger] entries@[i]).config.autobuild),
        result matches Ok(Some(run)) ==> run.fits() && run.model().running == 0
            && run.model().max_jobs == max_jobs,
{
    let all = records(entries@);
    if request is Autobuild {
        let targets = targets_of(BuildRequestView::Autobuild, all);
        if targets.len() > 0 {
            law_targets_are_what_is_asked_for(all, targets[0]);
            assert(targets.contains(targets[0]));
            let i = choose|i: int|
                0 <= i < all.len() && (#[trigger] all[i]).config.name == targets[0]
                    && all[i].config.autobuild;
            assert(entries@[i].config.autobuild);
        } else {
            assert forall|i: int| 0 <= i < entries@.len() implies !(
            #[trigger] entries@[i]).config.autobuild by {
                law_targets_are_what_is_asked_for(all, entries@[i].config.name@);
                assert(all[i] == entries@[i]@);
            }
        }
    }
}

/// A build is asked for by name or as an autobuild, and not both.
pub proof fn law_what_is_asked_for(
    name: Option<String>,
    autobuild: bool,
    request: Result<BuildRequest, Error>,
)
    requires
        call_ensures(handle_build, (name, autobuild), request),
    ensures
        request is Ok <==> (name is Some) != autobuild,
        request matches Ok(r) ==> (autobuild ==> r is Autobuild) && (name matches Some(n) ==> r == (
        BuildRequest::One { name: n })),
        request matches Err(e) ==> e == (if autobuild {
            Error::BuildTargetConflict
        } else {
            Error::BuildTargetMissing
        }),
{
}

/// Commands lead to the tasks that they stand for.
pub proof fn law_commands_are_done(command: Commands, task: Result<Task, Error>)
    requires
        call_ensures(dispatch, (command,), task),
    ensures
        task == task_of(command),
{
}

/// Creating an entry succeeds exactly if its name may be used and is free. All configurations that
/// it writes are as they were asked for, whatever the workspace is.
pub proof fn law_what_is_created(
    app: &App,
    name: &str,
    workspace: Option<UnixPath>,
    description: Option<String>,
    autobuild: bool,
    autobuild_order: i32,
    shell: Option<UnixPath>,
    taken: bool,
    result: Result<(Vec<FileStep>, UnixPath), Error>,
    path: UnixPath,
    config: EntryConfig,
)
    requires
        call_ensures(
            App::create_entry,
            (app, name, workspace, description, autobuild, autobuild_order, shell, taken),
            result,
        ),
    ensures
        result is Ok <==> new_entry_error(app.root@, name@, taken) is None,
        result matches Err(e) ==> Some(e@) == new_entry_error(app.root@, name@, taken),
        result matches Ok((steps, place)) ==> {
            &&& place@ == joined(joined(app.root@, path_of("entries"@)), path_of(name@))
            &&& steps@.contains(FileStep::WriteConfig { path, config }) ==> {
                &&& config.name@ == name@
                &&& config.autobuild == autobuild
                &&& config.autobuild_order == autobuild_order
                &&& config.description is Some <==> description is Some
                &&& description is Some ==> config.description->0@ == description->0@
                &&& shell is Some ==> config.shell@ == shell->0@
                &&& shell is None ==> config.shell@ == path_of("sh"@)
                &&& config.managed <==> workspace is None
                &&& workspace is Some ==> config.workspace@ == workspace->0@
                &&& workspace is None ==> config.workspace@ == joined(
                    place@,
                    path_of("workspace"@),
                )
                &&& config.depends_on@.len() == 0
            }
            &&& exists|i: int| 0 <= i < steps@.len() && #[trigger] steps@[i] is WriteConfig
        },
{
    if let Ok((steps, place)) = result {
        let list = steps_of(steps@);
        assert(list.len() == steps@.len());
        assert(list[2] is WriteConfig);
        assert(steps@[2]@ == list[2]);
        assert(steps@[2] is WriteConfig);
        let step = FileStep::WriteConfig { path, config };
        if steps@.contains(step) {
            let i = steps@.index_of(step);
            assert(list[i] == step@);
            assert(list.contains(FileStepView::WriteConfig { path: path@, config: config@ }));
            law_new_entry_is_as_asked(
                app.root@,
                name@,
                optional_path(workspace),
                optional_text(description),
                autobuild,
                autobuild_order as int,
                optional_path(shell),
                path@,
                config@,
            );
            assert(config@.depends_on.len() == config.depends_on@.len());
        }
    }
}

/// An import writes one configuration, with the name, the workspace and exactly the dependencies of
/// what is imported.
pub proof fn law_what_is_imported(
    root: &UnixPath,
    source: ImportSource,
    result: (Vec<FileStep>, UnixPath),
    path: UnixPath,
    config: EntryConfig,
)
    requires
        call_ensures(import_entry, (root, source), result),
    ensures
        result.1@ == joined(joined(root@, path_of("entries"@)), path_of(source.name@)),
        result.0@.contains(FileStep::WriteConfig { path, config }) ==> {
            &&& config.depends_on@.len() == source.depends_on@.len()
            &&& forall|i: int|
                0 <= i < config.depends_on@.len() ==> (#[trigger] config.depends_on@[i])@
                    == source.depends_on@[i]@
            &&& config.name@ == source.name@
            &&& config.workspace@ == source.workspace@
            &&& !config.managed
            &&& config.description is None
            &&& !config.autobuild
            &&& config.autobuild_order == 100
            &&& config.shell@ == path_of("sh"@)
        },
        exists|i: int| 0 <= i < result.0@.len() && #[trigger] result.0@[i] is WriteConfig,
{
    let steps = result.0@;
    let list = steps_of(steps);
    assert(list.len() == steps.len());
    assert(list[1] is WriteConfig);
    assert(steps[1]@ == list[1]);
    assert(steps[1] is WriteConfig);
    let step = FileStep::WriteConfig { path, config };
    if steps.contains(step) {
        let i = steps.index_of(step);
        assert(list[i] == step@);
        assert(list.contains(FileStepView::WriteConfig { path: path@, config: config@ }));
        law_import_records_what_was_found(root@, source@, path@, config@);
        let (kept, told) = (texts(config.depends_on@), texts(source.depends_on@));
        assert(kept == told);
        assert(kept.len() == config.depends_on@.len() && told.len() == source.depends_on@.len());
        assert forall|i: int| 0 <= i < config.depends_on@.len() implies (
        #[trigger] config.depends_on@[i])@ == source.depends_on@[i]@ by {
            assert(kept[i] == told[i]);
        }
    }
}

/// Whatever the entry is, what runs is the script of the target, with `DMGR_RUN_DIR` set to the
/// directory that the target is for, and to nothing else.
pub proof fn law_what_is_run(
    paths: &EntryPaths,
    config: &EntryConfig,
    target: &ResolvedRunTarget,
    shell_exists: bool,
    command: ScriptCommand,
)
    requires
        call_ensures(run_command, (paths, config, target, shell_exists), command),
    ensures
        sets(command@, "DMGR_RUN_DIR"@, target.execution_dir@),
        sets(command@, "DMGR_CMD_PATH"@, target.script_path@),
        sets(command@, "DMGR_ENTRY_NAME"@, path_of(config.name@)),
        sets(command@, "DMGR_ENTRY_ROOT"@, paths.root@),
        sets(command@, "DMGR_ENTRY_WORKSPACE"@, config.workspace@),
        command.script@ == target.script_path@,
        command.current_dir@ == paths.root@,
{
    law_run_tells_the_directory_it_is_for(paths@, config@, target@, shell_exists);
}

/// Whatever the entry is, its build script is run in its workspace, and for it.
pub proof fn law_what_a_build_runs(entry: &EntrySummary, shell_exists: bool, command: ScriptCommand)
    requires
        call_ensures(build_command, (entry, shell_exists), command),
    ensures
        sets(command@, "DMGR_RUN_DIR"@, entry.config.workspace@),
        sets(command@, "DMGR_CMD_PATH"@, entry.paths.build_script@),
        sets(command@, "DMGR_ENTRY_NAME"@, path_of(entry.config.name@)),
        sets(command@, "DMGR_ENTRY_ROOT"@, entry.paths.root@),
        sets(command@, "DMGR_ENTRY_WORKSPACE"@, entry.config.workspace@),
        command.script@ == entry.paths.build_script@,
        command.current_dir@ == entry.config.workspace@,
{
    law_build_runs_in_the_workspace(entry@, shell_exists);
}

/// An answer confirms a removal exactly if it is one of the words that do, with nothing but white
/// space around it. Any other answer ends it.
pub proof fn law_what_confirms(answer: &str, result: Result<(), Error>, i: int)
    requires
        call_ensures(confirm_rm, (answer,), result),
    ensures
        result is Ok <==> exists|front: Seq<char>, word: Seq<char>, back: Seq<char>|
            is_blank(front) && is_yes(word) && is_blank(back) && answer@ == #[trigger] (front + word
                + back),
        0 <= i < answer@.len() && is_blank(answer@.take(i)) && !white_space(answer@[i])
            && answer@[i] != 'y' && answer@[i] != 'Y' ==> result is Err,
        result matches Err(e) ==> e@ == ErrorView::Aborted,
{
    law_only_a_yes_confirms(answer@);
}

/// An entry is removed exactly if it is there and its removal was wished for with `yes` or confirmed.
/// Its directory is all that is removed, and nothing is written.
pub proof fn law_what_is_removed(
    paths: &EntryPaths,
    config_exists: bool,
    yes: bool,
    answer: &str,
    result: Result<Vec<FileStep>, Error>,
    i: int,
)
    requires
        call_ensures(handle_rm, (paths, config_exists, yes, answer), result),
    ensures
        result is Ok <==> config_exists && (yes || exists|
            front: Seq<char>,
            word: Seq<char>,
            back: Seq<char>,
        |
            is_blank(front) && is_yes(word) && is_blank(back) && answer@ == #[trigger] (front + word
                + back)),
        !yes && 0 <= i < answer@.len() && is_blank(answer@.take(i)) && !white_space(answer@[i])
            && answer@[i] != 'y' && answer@[i] != 'Y' ==> result is Err,
        result matches Ok(steps) ==> steps@.len() == 1 && (steps@[0] matches
            FileStep::RemoveEntryDir { path } && path@ == paths.root@),
        result matches Err(e) ==> e@ == (if config_exists {
            ErrorView::Aborted
        } else {
            ErrorView::EntryNotFound { root: paths.root@ }
        }),
{
    law_removal_needs_a_yes(paths@, config_exists, yes, answer@);
    if let Ok(steps) = result {
        let list = steps_of(steps@);
        assert(list.len() == steps@.len());
        assert(list[0] == steps@[0]@);
    }
}

/// Nothing is asked exactly if `yes` says it already.
pub proof fn law_when_it_is_asked(
    paths: &EntryPaths,
    config: &EntryConfig,
    yes: bool,
    prompt: Option<String>,
)
    requires
        call_ensures(rm_prompt, (paths, config, yes), prompt),
    ensures
        prompt is None <==> yes,
{
}

/// A build ends well exactly if no node failed, whatever else became of the nodes. The summary and
/// the error count them by what became of them.
pub proof fn law_how_a_build_ends(run: &BuildRun, result: (String, Result<(), Error>))
    requires
        call_ensures(finish_build, (run,), result),
    ensures
        ({
            let states = run.model().states;
            let succeeded = states.filter(equals(BuildNodeState::Succeeded)).len();
            let failed = states.filter(equals(BuildNodeState::Failed)).len();
            let skipped = states.filter(equals(BuildNodeState::Skipped)).len();
            &&& result.0@ == "[summary] succeeded="@ + decimal(succeeded) + " failed="@ + decimal(
                failed,
            ) + " skipped="@ + decimal(skipped)
            &&& result.1 is Ok <==> failed == 0
            &&& result.1 matches Err(e) ==> e@ == (ErrorView::BuildFailed { failed, skipped })
        }),
{
    let states = run.model().states;
    law_counts(Seq::empty(), 0, states, BuildNodeState::Succeeded);
    law_counts(Seq::empty(), 0, states, BuildNodeState::Failed);
    law_counts(Seq::empty(), 0, states, BuildNodeState::Skipped);
}

/// What is run ends well exactly if its status says so. Otherwise the error tells what it was and
/// how it ended.
pub proof fn law_how_scripts_end(
    kind: ScriptKind,
    config: &EntryConfig,
    editor: &Editor,
    success: bool,
    status: &str,
    script: Result<(), Error>,
    edited: Result<(), Error>,
    built: BuildTaskOutcome,
)
    requires
        call_ensures(script_finished, (kind, config, success, status), script),
        call_ensures(Editor::finished, (editor, success, status), edited),
        call_ensures(build_finished, (success, status), built),
    ensures
        script is Ok <==> success,
        script matches Err(e) ==> e@ == (ErrorView::ScriptFailed {
            kind,
            name: config.name@,
            status: status@,
        }),
        edited is Ok <==> success,
        edited matches Err(e) ==> e@ == (ErrorView::EditorFailed {
            program: editor.program@,
            status: status@,
        }),
        built is Succeeded <==> success,
        built matches BuildTaskOutcome::Failed(message) ==> message@ == "exit status "@ + status@,
{
}

/// An override counts exactly if the file that tells what it is for and its script are both there.
pub proof fn law_when_an_override_counts(
    paths: &EntryPaths,
    scope: &UnixPath,
    config_exists: bool,
    script_exists: bool,
    file: Option<UnixPath>,
)
    requires
        call_ensures(stored_override, (paths, scope, config_exists, script_exists), file),
    ensures
        file is Some <==> config_exists && script_exists,
        file matches Some(path) ==> path@ == override_config(paths.root@, scope@),
{
}

/// The override that is edited is that for the current directory, for another, or none, and never
/// two of them.
pub proof fn law_which_override_is_edited(
    cwd: bool,
    workspace: Option<UnixPath>,
    scope: Result<CmdScope, Error>,
)
    requires
        call_ensures(resolve_cmd_scope, (cwd, workspace), scope),
    ensures
        scope is Err <==> cwd && workspace is Some,
        scope matches Err(e) ==> e@ == ErrorView::ScopeConflict,
        scope matches Ok(s) ==> {
            &&& s is CurrentDir <==> cwd
            &&& s is Default <==> !cwd && workspace is None
            &&& workspace matches Some(path) ==> s == (CmdScope::Workspace { path })
        },
{
}

/// A path of an entry is shown as it is.
pub proof fn law_which_path_is_shown(
    paths: &EntryPaths,
    config: &EntryConfig,
    kind: PathKind,
    text: String,
)
    requires
        call_ensures(handle_path, (paths, config, kind), text),
    ensures
        kind is Entry ==> text@ == shown(paths.root@),
        kind is Config ==> text@ == shown(paths.config@),
        kind is Workspace ==> text@ == shown(config.workspace@),
        kind is File ==> text@ == shown(joined(config.workspace@, path_of("Dockerfile"@))),
        kind is Build ==> text@ == shown(paths.build_script@),
        kind is Run ==> text@ == shown(paths.run_script@),
{
}

/// The program works where the arguments say, else where the variable says, else in the home
/// directory.
pub proof fn law_where_the_program_works(
    root: Option<UnixPath>,
    dmgr_root: Option<UnixPath>,
    home: Option<UnixPath>,
    result: Result<App, Error>,
    usual: Option<UnixPath>,
)
    requires
        call_ensures(App::new, (root, dmgr_root, home), result),
        call_ensures(default_root, (home,), usual),
    ensures
        root is Some ==> result is Ok && result->Ok_0.root@ == root->0@,
        root is None && dmgr_root is Some ==> result is Ok && result->Ok_0.root@ == dmgr_root->0@,
        root is None && dmgr_root is None ==> (result is Ok <==> usual is Some) && (result is Ok
            ==> result->Ok_0.root@ == usual->0@),
        result matches Err(e) ==> e@ == ErrorView::RootUnknown,
        usual is Some <==> home is Some,
        home is Some ==> usual->0@ == joined(home->0@, path_of(".config/dmgr"@)),
{
}

/// A new entry is refused exactly for its name, and for what is there already. An entry that is not
/// there is not found.
pub proof fn law_which_entries_are_refused(
    root: &UnixPath,
    name: &str,
    taken: bool,
    made: Result<EntryPaths, Error>,
    paths: &EntryPaths,
    config_exists: bool,
    found: Result<(), Error>,
)
    requires
        call_ensures(new_entry_paths, (root, name, taken), made),
        call_ensures(ensure_entry_exists, (paths, config_exists), found),
    ensures
        made is Ok <==> new_entry_error(root@, name@, taken) is None,
        made matches Ok(p) ==> p.root@ == entry_root(root@, name@),
        made matches Err(e) ==> Some(e@) == new_entry_error(root@, name@, taken),
        found is Ok <==> config_exists,
        found matches Err(e) ==> e@ == (ErrorView::EntryNotFound { root: paths.root@ }),
{
}

/// What is not said otherwise is as usual.
pub proof fn law_what_is_usual(
    dockerfile: String,
    shell: UnixPath,
    new_shell: UnixPath,
    order: i32,
    label: &str,
    line: String,
    entry: &EntrySummary,
    log: UnixPath,
)
    requires
        call_ensures(default_dockerfile, (), dockerfile),
        call_ensures(default_shell, (), shell),
        call_ensures(default_shell_path, (), new_shell),
        call_ensures(default_autobuild_order, (), order),
        call_ensures(cmd_scope, (label,), line),
        call_ensures(build_log_path, (entry,), log),
    ensures
        dockerfile@ == "FROM alpine:latest\n"@,
        shell@ == path_of("sh"@),
        new_shell@ == shell@,
        order == 100,
        line@ == "using cmd scope: "@ + label@,
        log@ == joined(entry.paths.root@, path_of("build.last.log"@)),
{
}

} // verus!
