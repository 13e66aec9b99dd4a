//! The scripts of entries: which is run, how, and what comes of it.

use vstd::prelude::*;
use vstd::string::*;

use crate::entry::{
    override_config, override_run_script, CmdOverrideConfig, EntryConfig, EntryConfigView,
    EntryPaths, EntryPathsView, EntrySummary, EntrySummaryView, ScriptKind,
};
use crate::error::{Error, ErrorView};
use crate::path::{absolute, file_name_of, joined, path_of, same_path, shown, UnixPath};

verus! {

/// The program for a shell: a shell that is missing at its absolute path goes by its name alone.
pub open spec fn shell_program(shell: Seq<u8>, exists: bool) -> Seq<u8> {
    if absolute(shell) && !exists {
        match file_name_of(shell) {
            Some(name) => name,
            None => shell,
        }
    } else {
        shell
    }
}

/// The program for a shell. `exists` tells whether there is something at its path.
pub fn resolve_shell_command(shell: &UnixPath, exists: bool) -> (program: UnixPath)
    ensures
        program@ == shell_program(shell@, exists),
{
    if shell.is_absolute() && !exists {
        match shell.file_name() {
            Some(bytes) => {
                return UnixPath { bytes };
            },
            None => {},
        }
    }
    shell.clone()
}

/// What a run of an entry runs.
#[derive(Debug)]
pub struct ResolvedRunTarget {
    pub script_path: UnixPath,
    pub scope_label: String,
    pub execution_dir: UnixPath,
}

/// What a run of an entry runs.
#[verifier::ext_equal]
pub struct RunTargetView {
    pub script_path: Seq<u8>,
    pub scope_label: Seq<char>,
    pub execution_dir: Seq<u8>,
}

impl View for ResolvedRunTarget {
    type V = RunTargetView;

    open spec fn view(&self) -> RunTargetView {
        RunTargetView {
            script_path: self.script_path@,
            scope_label: self.scope_label@,
            execution_dir: self.execution_dir@,
        }
    }
}

/// What a run from directory `scope` runs: the override that is stored for that very directory, or
/// else the entry's own script. `stored` is what the override for `scope` says that it is for,
/// where both of its files are there.
pub open spec fn run_target(
    paths: EntryPathsView,
    workspace: Seq<u8>,
    scope: Seq<u8>,
    stored: Option<Seq<u8>>,
) -> RunTargetView {
    if stored matches Some(path) && same_path(path, scope) {
        RunTargetView {
            script_path: override_run_script(paths.root, scope),
            scope_label: shown(scope),
            execution_dir: scope,
        }
    } else {
        RunTargetView {
            script_path: paths.run_script,
            scope_label: "default"@,
            execution_dir: workspace,
        }
    }
}

/// The file that tells what the override for `scope` is for. An override counts only if that file
/// and its script are both there.
pub fn stored_override(
    paths: &EntryPaths,
    scope: &UnixPath,
    config_exists: bool,
    script_exists: bool,
) -> (file: Option<UnixPath>)
    ensures
        match file {
            Some(path) => config_exists && script_exists && path@ == override_config(
                paths@.root,
                scope@,
            ),
            None => !config_exists || !script_exists,
        },
{
    if config_exists && script_exists {
        Some(paths.cmd_override_config(scope))
    } else {
        None
    }
}

/// What a run from directory `scope` runs.
pub fn resolve_run_target(
    paths: &EntryPaths,
    config: &EntryConfig,
    scope: &UnixPath,
    stored: Option<CmdOverrideConfig>,
) -> (target: ResolvedRunTarget)
    ensures
        target@ == run_target(
            paths@,
            config@.workspace,
            scope@,
            match stored {
                Some(c) => Some(c@),
                None => None,
            },
        ),
{
    match stored {
        Some(stored_config) => {
            if stored_config.path == *scope {
                return ResolvedRunTarget {
                    script_path: paths.cmd_override_run_script(scope),
                    scope_label: scope.display(),
                    execution_dir: scope.clone(),
                };
            }
        },
        None => {},
    }
    ResolvedRunTarget {
        script_path: paths.run_script.clone(),
        scope_label: "default".to_owned(),
        execution_dir: config.workspace.clone(),
    }
}

/// A program with a script to run, the directory to run it in, and the variables to set for it.
#[derive(Debug)]
pub struct ScriptCommand {
    pub program: UnixPath,
    pub script: UnixPath,
    pub current_dir: UnixPath,
    pub env: Vec<(String, UnixPath)>,
}

/// What a script command is.
#[verifier::ext_equal]
pub struct ScriptCommandView {
    pub program: Seq<u8>,
    pub script: Seq<u8>,
    pub current_dir: Seq<u8>,
    pub env: Seq<(Seq<char>, Seq<u8>)>,
}

impl View for ScriptCommand {
    type V = ScriptCommandView;

    open spec fn view(&self) -> ScriptCommandView {
        ScriptCommandView {
            program: self.program@,
            script: self.script@,
            current_dir: self.current_dir@,
            env: self.env@.map_values(|v: (String, UnixPath)| (v.0@, v.1@)),
        }
    }
}

/// The variables that are set for a script.
pub open spec fn script_env(
    paths: EntryPathsView,
    config: EntryConfigView,
    script: Seq<u8>,
    run_dir: Seq<u8>,
) -> Seq<(Seq<char>, Seq<u8>)> {
    seq![
        ("DMGR_ENTRY_NAME"@, path_of(config.name)),
        ("DMGR_ENTRY_ROOT"@, paths.root),
        ("DMGR_ENTRY_WORKSPACE"@, config.workspace),
        ("DMGR_CMD_PATH"@, script),
        ("DMGR_RUN_DIR"@, run_dir),
    ]
}

fn script_command(
    paths: &EntryPaths,
    config: &EntryConfig,
    script: &UnixPath,
    current_dir: &UnixPath,
    run_dir: &UnixPath,
    shell_exists: bool,
) -> (command: ScriptCommand)
    ensures
        command@ == (ScriptCommandView {
            program: shell_program(config@.shell, shell_exists),
            script: script@,
            current_dir: current_dir@,
            env: script_env(paths@, config@, script@, run_dir@),
        }),
{
    let mut env: Vec<(String, UnixPath)> = Vec::new();
    env.push(("DMGR_ENTRY_NAME".to_owned(), UnixPath::new(config.name.as_str())));
    env.push(("DMGR_ENTRY_ROOT".to_owned(), paths.root.clone()));
    env.push(("DMGR_ENTRY_WORKSPACE".to_owned(), config.workspace.clone()));
    env.push(("DMGR_CMD_PATH".to_owned(), script.clone()));
    env.push(("DMGR_RUN_DIR".to_owned(), run_dir.clone()));
    assert(env@.map_values(|v: (String, UnixPath)| (v.0@, v.1@)) =~= script_env(
        paths@,
        config@,
        script@,
        run_dir@,
    ));
    ScriptCommand {
        program: resolve_shell_command(&config.shell, shell_exists),
        script: script.clone(),
        current_dir: current_dir.clone(),
        env,
    }
}

/// The command that runs a target.
pub open spec fn run_command_of(
    paths: EntryPathsView,
    config: EntryConfigView,
    target: RunTargetView,
    shell_exists: bool,
) -> ScriptCommandView {
    ScriptCommandView {
        program: shell_program(config.shell, shell_exists),
        script: target.script_path,
        current_dir: paths.root,
        env: script_env(paths, config, target.script_path, target.execution_dir),
    }
}

/// The command that builds an entry.
pub open spec fn build_command_of(entry: EntrySummaryView, shell_exists: bool) -> ScriptCommandView {
    ScriptCommandView {
        program: shell_program(entry.config.shell, shell_exists),
        script: entry.paths.build_script,
        current_dir: entry.config.workspace,
        env: script_env(
            entry.paths,
            entry.config,
            entry.paths.build_script,
            entry.config.workspace,
        ),
    }
}

/// How a run script is run: in the directory of its entry, with `DMGR_RUN_DIR` set to the
/// directory that the run is for. `shell_exists` tells whether there is something at the path of
/// the entry's shell.
pub fn run_command(
    paths: &EntryPaths,
    config: &EntryConfig,
    target: &ResolvedRunTarget,
    shell_exists: bool,
) -> (command: ScriptCommand)
    ensures
        command@ == (ScriptCommandView {
            program: shell_program(config@.shell, shell_exists),
            script: target@.script_path,
            current_dir: paths@.root,
            env: script_env(paths@, config@, target@.script_path, target@.execution_dir),
        }),
        command@ == run_command_of(paths@, config@, target@, shell_exists),
{
    script_command(
        paths,
        config,
        &target.script_path,
        &paths.root,
        &target.execution_dir,
        shell_exists,
    )
}

/// How the build script of an entry is run: in its workspace. `shell_exists` tells whether there
/// is something at the path of the entry's shell.
pub fn build_command(entry: &EntrySummary, shell_exists: bool) -> (command: ScriptCommand)
    ensures
        command@ == (ScriptCommandView {
            program: shell_program(entry@.config.shell, shell_exists),
            script: entry@.paths.build_script,
            current_dir: entry@.config.workspace,
            env: script_env(
                entry@.paths,
                entry@.config,
                entry@.paths.build_script,
                entry@.config.workspace,
            ),
        }),
        command@ == build_command_of(entry@, shell_exists),
{
    script_command(
        &entry.paths,
        &entry.config,
        &entry.paths.build_script,
        &entry.config.workspace,
        &entry.config.workspace,
        shell_exists,
    )
}

/// What comes of a script that ended with this status.
pub fn script_finished(
    kind: ScriptKind,
    config: &EntryConfig,
    success: bool,
    status: &str,
) -> (result: Result<(), Error>)
    ensures
        match result {
            Ok(()) => success,
            Err(e) => !success && e@ == (ErrorView::ScriptFailed {
                kind,
                name: config@.name,
                status: status@,
            }),
        },
{
    if success {
        Ok(())
    } else {
        Err(
            Error::ScriptFailed { kind, name: config.name.clone(), status: status.to_owned() },
        )
    }
}

/// Where the log of an entry's build lies.
pub fn build_log_path(entry: &EntrySummary) -> (path: UnixPath)
    ensures
        path@ == joined(entry@.paths.root, path_of("build.last.log"@)),
{
    entry.paths.root.join("build.last.log")
}

/// How a build ended.
#[derive(Debug)]
pub enum BuildTaskOutcome {
    Succeeded,
    Failed(String),
}

/// How a build ended: with a message if it failed.
pub open spec fn failure_of(outcome: BuildTaskOutcome) -> Option<Seq<char>> {
    match outcome {
        BuildTaskOutcome::Succeeded => None,
        BuildTaskOutcome::Failed(message) => Some(message@),
    }
}

/// What comes of a build script that ended with this status.
pub fn build_finished(success: bool, status: &str) -> (outcome: BuildTaskOutcome)
    ensures
        failure_of(outcome) == (if success {
            None::<Seq<char>>
        } else {
            Some("exit status "@ + status@)
        }),
{
    if success {
        BuildTaskOutcome::Succeeded
    } else {
        let mut message: String = "exit status ".to_owned();
        message.append(status);
        BuildTaskOutcome::Failed(message)
    }
}

/// A run from a directory follows the override that is stored for that very directory. If there is
/// none, or it is for another directory, the entry's own script runs.
pub proof fn law_run_follows_override(
    paths: EntryPathsView,
    workspace: Seq<u8>,
    scope: Seq<u8>,
    stored: Seq<u8>,
)
    ensures
        run_target(paths, workspace, scope, Some(scope)).script_path == override_run_script(
            paths.root,
            scope,
        ),
        run_target(paths, workspace, scope, Some(scope)).execution_dir == scope,
        !same_path(stored, scope) ==> run_target(paths, workspace, scope, Some(stored))
            == run_target(paths, workspace, scope, None),
        run_target(paths, workspace, scope, None).script_path == paths.run_script,
        run_target(paths, workspace, scope, None).execution_dir == workspace,
{
}

/// A shell that is there, or that is looked up by its name, is used as it is configured; one that
/// is missing at its absolute path goes by the name at the end of that path.
pub proof fn law_missing_shell_goes_by_name(shell: Seq<u8>, exists: bool)
    ensures
        exists || !absolute(shell) ==> shell_program(shell, exists) == shell,
        absolute(shell) && !exists && file_name_of(shell) is Some ==> shell_program(shell, exists)
            == file_name_of(shell)->0,
{
}

} // verus!
