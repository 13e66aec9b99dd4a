//! What the commands come to: creating, importing, opening, running and removing entries.

use vstd::prelude::*;
use vstd::string::*;

use crate::app::{
    chosen_root, create_steps, named_path, new_config, open_steps, override_steps, task_of, Task,
};
use crate::cli::{
    CmdCommands, Commands, EntryCommands, FileCommands, InitSystem, PathKind, ScriptCommands,
};
use crate::entries::BuildRequest;
use crate::entry::{
    file_of_kind, override_config, override_run_script, paths_under, EntryConfigView,
    EntryPathsView, EntrySummaryView, ScriptKind,
};
use crate::error::{Error, ErrorView};
use crate::files::FileStepView;
use crate::import::{import_steps, ImportSourceView};
use crate::names::entry_root;
use crate::path::{absolute, file_name_of, joined, path_of, same_path, shown, UnixPath};
use crate::removal::removal;
use crate::report::confirms;
use crate::script::{
    build_command_of, run_command_of, run_target, shell_program, RunTargetView, ScriptCommandView,
};
use crate::text::{trimmed, white_space};
use crate::text_laws::{is_blank, law_trimmed_text_is_what_was_framed, law_trimming_both_sides};

verus! {

/// The step writes something to `path`.
pub open spec fn writes_to(step: FileStepView, path: Seq<u8>) -> bool {
    match step {
        FileStepView::WriteConfig { path: p, .. } => p == path,
        FileStepView::WriteScope { path: p, .. } => p == path,
        FileStepView::Write { path: p, .. } => p == path,
        FileStepView::WriteIfMissing { path: p, .. } => p == path,
        FileStepView::Copy { to, .. } => to == path,
        FileStepView::CopyText { to, .. } => to == path,
        _ => false,
    }
}

/// The configuration that is written for a new entry is as it was asked for: its name, its
/// description, whether and where it takes part in autobuilds, and its shell and workspace if they
/// were given. Otherwise the shell is `sh`, and the workspace is managed and lies in the entry. It
/// depends on nothing.
pub proof fn law_new_entry_is_as_asked(
    root: Seq<u8>,
    name: Seq<char>,
    workspace: Option<Seq<u8>>,
    description: Option<Seq<char>>,
    autobuild: bool,
    autobuild_order: int,
    shell: Option<Seq<u8>>,
    path: Seq<u8>,
    config: EntryConfigView,
)
    requires
        create_steps(
            root,
            new_config(root, name, workspace, description, autobuild, autobuild_order, shell),
        ).contains(FileStepView::WriteConfig { path, config }),
    ensures
        path == paths_under(entry_root(root, name)).config,
        config.name == name,
        config.description == description,
        config.autobuild == autobuild,
        config.autobuild_order == autobuild_order,
        shell matches Some(s) ==> config.shell == s,
        shell is None ==> config.shell == path_of("sh"@),
        workspace matches Some(w) ==> config.workspace == w && !config.managed,
        workspace is None ==> config.managed && config.workspace == joined(
            entry_root(root, name),
            path_of("workspace"@),
        ),
        config.depends_on.len() == 0,
{
    let goal = new_config(root, name, workspace, description, autobuild, autobuild_order, shell);
    let steps = create_steps(root, goal);
    let i = steps.index_of(FileStepView::WriteConfig { path, config });
    assert(i == 2);
}

/// Creating an entry first makes its directory and its workspace. Then it writes the entry's
/// configuration and scripts, and a Dockerfile only where there is none, and nothing else.
pub proof fn law_new_entry_gets_its_files(root: Seq<u8>, config: EntryConfigView, i: int)
    ensures
        ({
            let paths = paths_under(entry_root(root, config.name));
            let dockerfile = joined(config.workspace, path_of("Dockerfile"@));
            let steps = create_steps(root, config);
            &&& steps.len() == 6
            &&& steps[0] == (FileStepView::CreateEntryDir { path: paths.root })
            &&& steps[1] == (FileStepView::CreateWorkspace { path: config.workspace })
            &&& steps.contains(FileStepView::WriteConfig { path: paths.config, config })
            &&& steps.contains(
                FileStepView::WriteIfMissing { path: dockerfile, text: "FROM alpine:latest\n"@ },
            )
            &&& 2 <= i < steps.len() ==> writes_to(steps[i], paths.config) || writes_to(
                steps[i],
                paths.build_script,
            ) || writes_to(steps[i], paths.run_script) || steps[i] == (
            FileStepView::WriteIfMissing { path: dockerfile, text: "FROM alpine:latest\n"@ })
        }),
{
    let steps = create_steps(root, config);
    assert(steps[2] is WriteConfig && steps[3] is WriteIfMissing);
}

/// The configuration that an import writes for a workspace has the name, the place and exactly the
/// dependencies that were found for it. The workspace stays external, and the rest is as usual.
pub proof fn law_import_records_what_was_found(
    root: Seq<u8>,
    source: ImportSourceView,
    path: Seq<u8>,
    config: EntryConfigView,
)
    requires
        import_steps(root, source).contains(FileStepView::WriteConfig { path, config }),
    ensures
        path == paths_under(entry_root(root, source.name)).config,
        config.depends_on == source.depends_on,
        config.name == source.name,
        config.workspace == source.workspace,
        !config.managed,
        config.description is None,
        !config.autobuild,
        config.autobuild_order == 100,
        config.shell == path_of("sh"@),
{
    let steps = import_steps(root, source);
    let i = steps.index_of(FileStepView::WriteConfig { path, config });
    assert(i == 1);
}

/// An import makes the directory of the entry and writes its configuration and its scripts, and
/// nothing else. The build script is the workspace's own, if it has one.
pub proof fn law_import_writes_only_the_entry(root: Seq<u8>, source: ImportSourceView, i: int)
    ensures
        ({
            let paths = paths_under(entry_root(root, source.name));
            let steps = import_steps(root, source);
            &&& steps.len() == 4
            &&& steps[0] == (FileStepView::CreateEntryDir { path: paths.root })
            &&& 1 <= i < steps.len() ==> writes_to(steps[i], paths.config) || writes_to(
                steps[i],
                paths.build_script,
            ) || writes_to(steps[i], paths.run_script)
            &&& exists|k: int|
                0 <= k < steps.len() && writes_to(#[trigger] steps[k], paths.build_script) && (
                match source.build_script {
                    Some(script) => steps[k] == (FileStepView::Copy {
                        from: script,
                        to: paths.build_script,
                    }),
                    None => steps[k] is Write,
                })
        }),
{
    let steps = import_steps(root, source);
    let paths = paths_under(entry_root(root, source.name));
    assert(writes_to(steps[2], paths.build_script));
}

/// The variable is set for the command, to this value and no other.
pub open spec fn sets(command: ScriptCommandView, variable: Seq<char>, value: Seq<u8>) -> bool {
    &&& command.env.contains((variable, value))
    &&& forall|other: Seq<u8>| #[trigger] command.env.contains((variable, other)) ==> other == value
}

proof fn lemma_variables_differ()
    ensures
        "DMGR_ENTRY_NAME"@ != "DMGR_ENTRY_ROOT"@,
        "DMGR_ENTRY_NAME"@ != "DMGR_ENTRY_WORKSPACE"@,
        "DMGR_ENTRY_NAME"@ != "DMGR_CMD_PATH"@,
        "DMGR_ENTRY_NAME"@ != "DMGR_RUN_DIR"@,
        "DMGR_ENTRY_ROOT"@ != "DMGR_ENTRY_WORKSPACE"@,
        "DMGR_ENTRY_ROOT"@ != "DMGR_CMD_PATH"@,
        "DMGR_ENTRY_ROOT"@ != "DMGR_RUN_DIR"@,
        "DMGR_ENTRY_WORKSPACE"@ != "DMGR_CMD_PATH"@,
        "DMGR_ENTRY_WORKSPACE"@ != "DMGR_RUN_DIR"@,
        "DMGR_CMD_PATH"@ != "DMGR_RUN_DIR"@,
{
    reveal_strlit("DMGR_ENTRY_NAME");
    reveal_strlit("DMGR_ENTRY_ROOT");
    reveal_strlit("DMGR_ENTRY_WORKSPACE");
    reveal_strlit("DMGR_CMD_PATH");
    reveal_strlit("DMGR_RUN_DIR");
    assert("DMGR_ENTRY_NAME"@.len() == 15 && "DMGR_ENTRY_ROOT"@.len() == 15);
    assert("DMGR_ENTRY_WORKSPACE"@.len() == 20);
    assert("DMGR_CMD_PATH"@.len() == 13 && "DMGR_RUN_DIR"@.len() == 12);
    assert("DMGR_ENTRY_NAME"@[11] == 'N');
    assert("DMGR_ENTRY_ROOT"@[11] == 'R');
}

/// Whatever the entry, the command that runs a target runs the target's script in the directory of
/// the entry, with `DMGR_RUN_DIR` set to the directory that the target is for, and the other
/// variables to what they stand for.
pub proof fn law_run_tells_the_directory_it_is_for(
    paths: EntryPathsView,
    config: EntryConfigView,
    target: RunTargetView,
    shell_exists: bool,
)
    ensures
        ({
            let command = run_command_of(paths, config, target, shell_exists);
            &&& command.script == target.script_path
            &&& command.current_dir == paths.root
            &&& command.program == shell_program(config.shell, shell_exists)
            &&& sets(command, "DMGR_RUN_DIR"@, target.execution_dir)
            &&& sets(command, "DMGR_CMD_PATH"@, target.script_path)
            &&& sets(command, "DMGR_ENTRY_NAME"@, path_of(config.name))
            &&& sets(command, "DMGR_ENTRY_ROOT"@, paths.root)
            &&& sets(command, "DMGR_ENTRY_WORKSPACE"@, config.workspace)
            &&& command.env.len() == 5
        }),
{
    lemma_variables_differ();
    let env = run_command_of(paths, config, target, shell_exists).env;
    assert(env[0].0 == "DMGR_ENTRY_NAME"@ && env[1].0 == "DMGR_ENTRY_ROOT"@ && env[2].0
        == "DMGR_ENTRY_WORKSPACE"@ && env[3].0 == "DMGR_CMD_PATH"@ && env[4].0
        == "DMGR_RUN_DIR"@);
}

/// A run from a directory for which an override is stored has `DMGR_RUN_DIR` set to that directory
/// and runs the override, whatever the entry is. Any other run has it set to the workspace and runs
/// the entry's own script.
pub proof fn law_override_runs_for_its_directory(
    paths: EntryPathsView,
    config: EntryConfigView,
    scope: Seq<u8>,
    stored: Option<Seq<u8>>,
    shell_exists: bool,
)
    ensures
        ({
            let target = run_target(paths, config.workspace, scope, stored);
            let command = run_command_of(paths, config, target, shell_exists);
            let overridden = stored is Some && same_path(stored->0, scope);
            &&& overridden ==> sets(command, "DMGR_RUN_DIR"@, scope) && target.scope_label == shown(
                scope,
            ) && command.script == override_run_script(paths.root, scope)
            &&& !overridden ==> sets(command, "DMGR_RUN_DIR"@, config.workspace)
                && target.scope_label == "default"@ && command.script == paths.run_script
        }),
{
    let target = run_target(paths, config.workspace, scope, stored);
    law_run_tells_the_directory_it_is_for(paths, config, target, shell_exists);
}

/// Whatever the entry, its build script is run in its workspace, with the variables set to what they
/// stand for.
pub proof fn law_build_runs_in_the_workspace(entry: EntrySummaryView, shell_exists: bool)
    ensures
        ({
            let command = build_command_of(entry, shell_exists);
            &&& command.script == entry.paths.build_script
            &&& command.current_dir == entry.config.workspace
            &&& command.program == shell_program(entry.config.shell, shell_exists)
            &&& sets(command, "DMGR_RUN_DIR"@, entry.config.workspace)
            &&& sets(command, "DMGR_CMD_PATH"@, entry.paths.build_script)
            &&& sets(command, "DMGR_ENTRY_NAME"@, path_of(entry.config.name))
            &&& sets(command, "DMGR_ENTRY_ROOT"@, entry.paths.root)
            &&& sets(command, "DMGR_ENTRY_WORKSPACE"@, entry.config.workspace)
            &&& command.env.len() == 5
        }),
{
    lemma_variables_differ();
    let env = build_command_of(entry, shell_exists).env;
    assert(env[0].0 == "DMGR_ENTRY_NAME"@ && env[1].0 == "DMGR_ENTRY_ROOT"@ && env[2].0
        == "DMGR_ENTRY_WORKSPACE"@ && env[3].0 == "DMGR_CMD_PATH"@ && env[4].0
        == "DMGR_RUN_DIR"@);
}

/// The shell is used as it is configured, but for one that is missing at an absolute path that ends
/// in a name.
pub proof fn law_shell_is_used_as_configured(shell: Seq<u8>, exists: bool)
    ensures
        exists || !absolute(shell) || file_name_of(shell) is None ==> shell_program(shell, exists)
            == shell,
        !exists && absolute(shell) ==> (file_name_of(shell) matches Some(name) ==> shell_program(
            shell,
            exists,
        ) == name),
{
}

/// One of the words that confirm.
pub open spec fn is_yes(word: Seq<char>) -> bool {
    ||| word == seq!['y']
    ||| word == seq!['Y']
    ||| word == seq!['y', 'e', 's']
    ||| word == seq!['Y', 'E', 'S']
    ||| word == seq!['Y', 'e', 's']
}

/// An answer confirms exactly if it is one of the words that do, with nothing but white space
/// around it.
pub proof fn law_only_a_yes_confirms(answer: Seq<char>)
    ensures
        confirms(answer) <==> exists|front: Seq<char>, word: Seq<char>, back: Seq<char>|
            is_blank(front) && is_yes(word) && is_blank(back) && answer == #[trigger] (front + word
                + back),
        forall|i: int|
            0 <= i < answer.len() && confirms(answer) && !white_space(#[trigger] answer[i])
                && is_blank(answer.take(i)) ==> answer[i] == 'y' || answer[i] == 'Y',
{
    reveal_strlit("y");
    reveal_strlit("Y");
    reveal_strlit("yes");
    reveal_strlit("YES");
    reveal_strlit("Yes");
    assert("y"@ =~= seq!['y']);
    assert("Y"@ =~= seq!['Y']);
    assert("yes"@ =~= seq!['y', 'e', 's']);
    assert("YES"@ =~= seq!['Y', 'E', 'S']);
    assert("Yes"@ =~= seq!['Y', 'e', 's']);
    law_trimming_both_sides(answer);
    let (front, back) = choose|front: Seq<char>, back: Seq<char>|
        is_blank(front) && is_blank(back) && answer == #[trigger] (front + trimmed(answer) + back);
    let word = trimmed(answer);
    if confirms(answer) {
        assert(is_yes(word));
        assert forall|i: int|
            0 <= i < answer.len() && !white_space(#[trigger] answer[i]) && is_blank(
                answer.take(i),
            ) implies answer[i] == 'y' || answer[i] == 'Y' by {
            let k = front.len() as int;
            assert(answer[k] == word[0]);
            if i < k {
                assert(answer[i] == front[i]);
            }
            if i > k {
                assert(answer.take(i)[k] == answer[k]);
            }
        }
    }
    if exists|p: Seq<char>, w: Seq<char>, q: Seq<char>|
        is_blank(p) && is_yes(w) && is_blank(q) && answer == #[trigger] (p + w + q) {
        let (p, w, q) = choose|p: Seq<char>, w: Seq<char>, q: Seq<char>|
            is_blank(p) && is_yes(w) && is_blank(q) && answer == #[trigger] (p + w + q);
        assert(!white_space(w[0]) && !white_space(w.last()));
        law_trimmed_text_is_what_was_framed(p, w, q);
    }
}

/// An entry is removed exactly if it is there and its removal was wished for with `yes` or
/// confirmed by a word that does. In particular, no answer does it of which the first character
/// other than white space is neither `y` nor `Y`.
pub proof fn law_removal_needs_a_yes(
    paths: EntryPathsView,
    config_exists: bool,
    yes: bool,
    answer: Seq<char>,
)
    ensures
        removal(paths, config_exists, yes, answer) is Ok <==> config_exists && (yes || exists|
            front: Seq<char>,
            word: Seq<char>,
            back: Seq<char>,
        |
            is_blank(front) && is_yes(word) && is_blank(back) && answer == #[trigger] (front + word
                + back)),
        forall|i: int|
            !yes && 0 <= i < answer.len() && !white_space(#[trigger] answer[i]) && is_blank(
                answer.take(i),
            ) && answer[i] != 'y' && answer[i] != 'Y' ==> removal(
                paths,
                config_exists,
                yes,
                answer,
            ) is Err,
        !config_exists ==> removal(paths, config_exists, yes, answer) == Err::<
            Seq<FileStepView>,
            ErrorView,
        >(ErrorView::EntryNotFound { root: paths.root }),
        config_exists && removal(paths, config_exists, yes, answer) is Err ==> removal(
            paths,
            config_exists,
            yes,
            answer,
        ) == Err::<Seq<FileStepView>, ErrorView>(ErrorView::Aborted),
        removal(paths, config_exists, yes, answer) matches Ok(steps) ==> steps == seq![
            FileStepView::RemoveEntryDir { path: paths.root },
        ],
{
    law_only_a_yes_confirms(answer);
}

/// The arguments go before the variable, and the variable before the home directory. Only without
/// any of them there is no root.
pub proof fn law_root_is_chosen_in_turn(
    root: Option<Seq<u8>>,
    dmgr_root: Option<Seq<u8>>,
    home: Option<Seq<u8>>,
    path: Seq<u8>,
)
    ensures
        chosen_root(Some(path), dmgr_root, home) == Some(path),
        chosen_root(None, Some(path), home) == Some(path),
        chosen_root(None, None, Some(path)) == Some(joined(path, path_of(".config/dmgr"@))),
        chosen_root(root, dmgr_root, home) is None <==> root is None && dmgr_root is None && home
            is None,
{
}

/// Before a file is opened, the place for it is made. A Dockerfile that is missing gets the usual
/// text; no file that is there is written to, and no other kind of file is.
pub proof fn law_opening_overwrites_nothing(target: Seq<u8>, kind: ScriptKind, i: int)
    ensures
        ({
            let steps = open_steps(target, kind);
            &&& steps.len() > 0
            &&& steps[0] == (FileStepView::CreateParent { path: target })
            &&& 1 <= i < steps.len() ==> kind == ScriptKind::Dockerfile && steps[i] == (
            FileStepView::WriteIfMissing { path: target, text: "FROM alpine:latest\n"@ })
            &&& kind == ScriptKind::Dockerfile ==> steps.len() == 2
        }),
{
}

/// An override that is there is opened as it is. One that is not is made for exactly the directory
/// asked for, from the entry's own script.
pub proof fn law_override_is_made_once(paths: EntryPathsView, scope: Seq<u8>)
    ensures
        override_steps(paths, scope, true).len() == 0,
        override_steps(paths, scope, false).len() == 2,
        override_steps(paths, scope, false)[0] matches FileStepView::WriteScope { path, scope: s }
            && s == scope && path == override_config(paths.root, scope),
        override_steps(paths, scope, false)[1] matches FileStepView::CopyText { from, to } && from
            == paths.run_script && to == override_run_script(paths.root, scope),
{
}

/// Each kind of path names a path of its own.
pub proof fn law_kinds_name_paths(paths: EntryPathsView, config: EntryConfigView)
    ensures
        named_path(paths, config, PathKind::Entry) == paths.root,
        named_path(paths, config, PathKind::Config) == paths.config,
        named_path(paths, config, PathKind::Workspace) == config.workspace,
        named_path(paths, config, PathKind::File) == joined(
            config.workspace,
            path_of("Dockerfile"@),
        ),
        named_path(paths, config, PathKind::Build) == paths.build_script,
        named_path(paths, config, PathKind::Run) == paths.run_script,
        file_of_kind(paths, ScriptKind::Dockerfile, config) == named_path(
            paths,
            config,
            PathKind::File,
        ),
        file_of_kind(paths, ScriptKind::Build, config) == named_path(
            paths,
            config,
            PathKind::Build,
        ),
        file_of_kind(paths, ScriptKind::Run, config) == named_path(paths, config, PathKind::Run),
{
}

/// Every command becomes the task of the same kind with the same particulars. Editing a file or a
/// script opens the Dockerfile or the build script.
pub proof fn law_commands_become_their_tasks(
    name: String,
    path: UnixPath,
    workspace: Option<UnixPath>,
    description: Option<String>,
    autobuild: bool,
    autobuild_order: i32,
    shell: Option<UnixPath>,
    yes: bool,
    kind: PathKind,
    system: InitSystem,
)
    ensures
        task_of(
            Commands::Entry {
                command: EntryCommands::Create {
                    name,
                    workspace,
                    description,
                    autobuild,
                    autobuild_order,
                    shell,
                },
            },
        ) == Ok::<Task, Error>(
            Task::CreateEntry { name, workspace, description, autobuild, autobuild_order, shell },
        ),
        task_of(Commands::Entry { command: EntryCommands::List { autobuild } }) == Ok::<
            Task,
            Error,
        >(Task::ListEntries { autobuild_only: autobuild }),
        task_of(Commands::Import { path }) == Ok::<Task, Error>(Task::Import { path }),
        task_of(Commands::File { command: FileCommands::Edit { name } }) == Ok::<Task, Error>(
            Task::OpenEntryPath { name, kind: ScriptKind::Dockerfile },
        ),
        task_of(Commands::Script { command: ScriptCommands::Edit { name } }) == Ok::<Task, Error>(
            Task::OpenEntryPath { name, kind: ScriptKind::Build },
        ),
        task_of(Commands::Cmd { command: CmdCommands::Edit { name, cwd: yes, workspace } }) == Ok::<
            Task,
            Error,
        >(Task::OpenCmdPath { name, cwd: yes, workspace }),
        task_of(Commands::Build { name: Some(name), autobuild: false }) == Ok::<Task, Error>(
            Task::Build { request: BuildRequest::One { name } },
        ),
        task_of(Commands::Build { name: None, autobuild: true }) == Ok::<Task, Error>(
            Task::Build { request: BuildRequest::Autobuild },
        ),
        task_of(Commands::Build { name: Some(name), autobuild: true }) == Err::<Task, Error>(
            Error::BuildTargetConflict,
        ),
        task_of(Commands::Build { name: None, autobuild: false }) == Err::<Task, Error>(
            Error::BuildTargetMissing,
        ),
        task_of(Commands::BuildAll) == Ok::<Task, Error>(
            Task::Build { request: BuildRequest::All },
        ),
        task_of(Commands::Rm { name, yes }) == Ok::<Task, Error>(Task::Rm { name, yes }),
        task_of(Commands::Run { name }) == Ok::<Task, Error>(Task::Run { name }),
        task_of(Commands::Path { name, kind }) == Ok::<Task, Error>(Task::Path { name, kind }),
        task_of(Commands::Init { system, output: workspace, dmgr_bin: name }) == Ok::<Task, Error>(
            Task::Init { system, output: workspace, dmgr_bin: name },
        ),
{
}

} // verus!
