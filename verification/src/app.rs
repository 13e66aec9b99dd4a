//! What each command does.

use vstd::prelude::*;
use vstd::string::*;

use crate::cli::{
    CmdCommands, Commands, EntryCommands, FileCommands, InitSystem, PathKind, ScriptCommands,
};
use crate::entries::{handle_build, BuildRequest};
use crate::entry::{
    dockerfile_in, optional_text, override_config, override_run_script, paths_under,
    CmdOverrideConfig, EntryConfig, EntryConfigView, EntryPaths, EntryPathsView, ScriptKind,
};
use crate::error::{Error, ErrorView};
use crate::files::{
    build_script_text, default_build_script, default_dockerfile, default_run_script,
    default_shell_path, run_script_text, steps_of, FileStep, FileStepView,
};
use crate::import::{import_steps, imported_config, ImportSourceView};
use crate::names::{
    entries_dir, entries_under, entry_paths, entry_root, new_entry_error, new_entry_paths,
};
use crate::path::{joined, optional_path, path_of, shown, UnixPath};
use crate::script::run_target;
use crate::text::texts;

verus! {

/// The program at work on everything that is kept under `root`.
#[derive(Debug)]
pub struct App {
    pub root: UnixPath,
}

/// Where everything is kept: what the arguments say, or else the variable `DMGR_ROOT`, or else a
/// place in the home directory, if that is known.
pub open spec fn chosen_root(
    root: Option<Seq<u8>>,
    dmgr_root: Option<Seq<u8>>,
    home: Option<Seq<u8>>,
) -> Option<Seq<u8>> {
    if root is Some {
        root
    } else if dmgr_root is Some {
        dmgr_root
    } else {
        match home {
            Some(path) => Some(joined(path, path_of(".config/dmgr"@))),
            None => None,
        }
    }
}

/// The usual place, in the home directory.
pub fn default_root(home: Option<UnixPath>) -> (root: Option<UnixPath>)
    ensures
        optional_path(root) == chosen_root(None, None, optional_path(home)),
{
    match home {
        Some(path) => Some(path.join(".config/dmgr")),
        None => None,
    }
}

/// What a command asks for, once its parts are sorted out.
#[derive(Debug)]
pub enum Task {
    CreateEntry {
        name: String,
        workspace: Option<UnixPath>,
        description: Option<String>,
        autobuild: bool,
        autobuild_order: i32,
        shell: Option<UnixPath>,
    },
    ListEntries { autobuild_only: bool },
    Import { path: UnixPath },
    OpenEntryPath { name: String, kind: ScriptKind },
    OpenCmdPath { name: String, cwd: bool, workspace: Option<UnixPath> },
    Build { request: BuildRequest },
    Rm { name: String, yes: bool },
    Run { name: String },
    Path { name: String, kind: PathKind },
    Init { system: InitSystem, output: Option<UnixPath>, dmgr_bin: String },
}

/// What a command on entries asks for.
pub open spec fn entry_task(command: EntryCommands) -> Task {
    match command {
        EntryCommands::Create {
            name,
            workspace,
            description,
            autobuild,
            autobuild_order,
            shell,
        } => Task::CreateEntry { name, workspace, description, autobuild, autobuild_order, shell },
        EntryCommands::List { autobuild } => Task::ListEntries { autobuild_only: autobuild },
    }
}

/// What a command asks for. A build needs a name or `--autobuild`, and not both.
pub open spec fn task_of(command: Commands) -> Result<Task, Error> {
    match command {
        Commands::Entry { command } => Ok(entry_task(command)),
        Commands::Import { path } => Ok(Task::Import { path }),
        Commands::File { command: FileCommands::Edit { name } } => Ok(
            Task::OpenEntryPath { name, kind: ScriptKind::Dockerfile },
        ),
        Commands::Script { command: ScriptCommands::Edit { name } } => Ok(
            Task::OpenEntryPath { name, kind: ScriptKind::Build },
        ),
        Commands::Cmd { command: CmdCommands::Edit { name, cwd, workspace } } => Ok(
            Task::OpenCmdPath { name, cwd, workspace },
        ),
        Commands::Build { name: Some(_), autobuild: true } => Err(Error::BuildTargetConflict),
        Commands::Build { name: None, autobuild: false } => Err(Error::BuildTargetMissing),
        Commands::Build { name: Some(name), autobuild: false } => Ok(
            Task::Build { request: BuildRequest::One { name } },
        ),
        Commands::Build { name: None, autobuild: true } => Ok(
            Task::Build { request: BuildRequest::Autobuild },
        ),
        Commands::BuildAll => Ok(Task::Build { request: BuildRequest::All }),
        Commands::Rm { name, yes } => Ok(Task::Rm { name, yes }),
        Commands::Run { name } => Ok(Task::Run { name }),
        Commands::Path { name, kind } => Ok(Task::Path { name, kind }),
        Commands::Init { system, output, dmgr_bin } => Ok(
            Task::Init { system, output, dmgr_bin },
        ),
    }
}

fn handle_entry(command: EntryCommands) -> (task: Task)
    ensures
        task == entry_task(command),
{
    match command {
        EntryCommands::Create {
            name,
            workspace,
            description,
            autobuild,
            autobuild_order,
            shell,
        } => Task::CreateEntry { name, workspace, description, autobuild, autobuild_order, shell },
        EntryCommands::List { autobuild } => Task::ListEntries { autobuild_only: autobuild },
    }
}

fn handle_file(command: FileCommands) -> (task: Task)
    ensures
        Ok::<Task, Error>(task) == task_of(Commands::File { command }),
{
    match command {
        FileCommands::Edit { name } => Task::OpenEntryPath { name, kind: ScriptKind::Dockerfile },
    }
}

fn handle_script(command: ScriptCommands) -> (task: Task)
    ensures
        Ok::<Task, Error>(task) == task_of(Commands::Script { command }),
{
    match command {
        ScriptCommands::Edit { name } => Task::OpenEntryPath { name, kind: ScriptKind::Build },
    }
}

fn handle_cmd(command: CmdCommands) -> (task: Task)
    ensures
        Ok::<Task, Error>(task) == task_of(Commands::Cmd { command }),
{
    match command {
        CmdCommands::Edit { name, cwd, workspace } => Task::OpenCmdPath { name, cwd, workspace },
    }
}

/// What a command asks for.
pub fn dispatch(command: Commands) -> (task: Result<Task, Error>)
    ensures
        task == task_of(command),
{
    match command {
        Commands::Entry { command } => Ok(handle_entry(command)),
        Commands::Import { path } => Ok(Task::Import { path }),
        Commands::File { command } => Ok(handle_file(command)),
        Commands::Script { command } => Ok(handle_script(command)),
        Commands::Cmd { command } => Ok(handle_cmd(command)),
        Commands::Build { name, autobuild } => match handle_build(name, autobuild) {
            Ok(request) => Ok(Task::Build { request }),
            Err(e) => Err(e),
        },
        Commands::BuildAll => Ok(Task::Build { request: BuildRequest::All }),
        Commands::Rm { name, yes } => Ok(Task::Rm { name, yes }),
        Commands::Run { name } => Ok(Task::Run { name }),
        Commands::Path { name, kind } => Ok(Task::Path { name, kind }),
        Commands::Init { system, output, dmgr_bin } => Ok(
            Task::Init { system, output, dmgr_bin },
        ),
    }
}

/// The configuration of a new entry. Without a workspace of its own it gets a managed one.
pub open spec fn new_config(
    root: Seq<u8>,
    name: Seq<char>,
    workspace: Option<Seq<u8>>,
    description: Option<Seq<char>>,
    autobuild: bool,
    autobuild_order: int,
    shell: Option<Seq<u8>>,
) -> EntryConfigView {
    EntryConfigView {
        name,
        workspace: match workspace {
            Some(path) => path,
            None => joined(entry_root(root, name), path_of("workspace"@)),
        },
        managed: workspace is None,
        description,
        autobuild,
        autobuild_order,
        shell: match shell {
            Some(path) => path,
            None => path_of("sh"@),
        },
        depends_on: Seq::empty(),
    }
}

/// What creating an entry changes: its directory and its workspace come to be, it gets a
/// configuration and the usual scripts, and the workspace gets a Dockerfile if it has none.
pub open spec fn create_steps(root: Seq<u8>, config: EntryConfigView) -> Seq<FileStepView> {
    let paths = paths_under(entry_root(root, config.name));
    seq![
        FileStepView::CreateEntryDir { path: paths.root },
        FileStepView::CreateWorkspace { path: config.workspace },
        FileStepView::WriteConfig { path: paths.config, config },
        FileStepView::WriteIfMissing {
            path: dockerfile_in(config.workspace),
            text: "FROM alpine:latest\n"@,
        },
        FileStepView::Write { path: paths.build_script, text: build_script_text(config.name) },
        FileStepView::Write { path: paths.run_script, text: run_script_text(config.name) },
    ]
}

/// What is done before a file of an entry is opened: the place for it comes to be, and then so does
/// a Dockerfile that is missing there.
pub open spec fn open_steps(target: Seq<u8>, kind: ScriptKind) -> Seq<FileStepView> {
    if kind == ScriptKind::Dockerfile {
        seq![
            FileStepView::CreateParent { path: target },
            FileStepView::WriteIfMissing { path: target, text: "FROM alpine:latest\n"@ },
        ]
    } else {
        seq![FileStepView::CreateParent { path: target }]
    }
}

/// What is done before the override for `scope` is opened: one that is not there is made from the
/// entry's own script.
pub open spec fn override_steps(
    paths: EntryPathsView,
    scope: Seq<u8>,
    exists: bool,
) -> Seq<FileStepView> {
    if exists {
        Seq::empty()
    } else {
        seq![
            FileStepView::WriteScope { path: override_config(paths.root, scope), scope },
            FileStepView::CopyText {
                from: paths.run_script,
                to: override_run_script(paths.root, scope),
            },
        ]
    }
}

/// The path of an entry that `kind` names.
pub open spec fn named_path(
    paths: EntryPathsView,
    config: EntryConfigView,
    kind: PathKind,
) -> Seq<u8> {
    match kind {
        PathKind::Entry => paths.root,
        PathKind::Config => paths.config,
        PathKind::Workspace => config.workspace,
        PathKind::File => dockerfile_in(config.workspace),
        PathKind::Build => paths.build_script,
        PathKind::Run => paths.run_script,
    }
}

/// The run command that is edited.
#[derive(Debug)]
pub enum CmdScope {
    /// The entry's own.
    Default,
    /// That for the current directory.
    CurrentDir,
    /// That for this directory.
    Workspace { path: UnixPath },
}

/// Which run command is edited. It is that for the current directory, or for another, but not
/// both.
pub fn resolve_cmd_scope(cwd: bool, workspace: Option<UnixPath>) -> (scope: Result<CmdScope, Error>)
    ensures
        match scope {
            Ok(CmdScope::Default) => !cwd && workspace is None,
            Ok(CmdScope::CurrentDir) => cwd && workspace is None,
            Ok(CmdScope::Workspace { path }) => !cwd && workspace == Some(path),
            Err(e) => cwd && workspace is Some && e@ == ErrorView::ScopeConflict,
        },
{
    match (cwd, workspace) {
        (true, Some(_)) => Err(Error::ScopeConflict),
        (true, None) => Ok(CmdScope::CurrentDir),
        (false, Some(path)) => Ok(CmdScope::Workspace { path }),
        (false, None) => Ok(CmdScope::Default),
    }
}

/// The text shown for the path of an entry that `kind` names.
pub fn handle_path(paths: &EntryPaths, config: &EntryConfig, kind: PathKind) -> (text: String)
    ensures
        text@ == shown(named_path(paths@, config@, kind)),
{
    match kind {
        PathKind::Entry => paths.root.display(),
        PathKind::Config => paths.config.display(),
        PathKind::Workspace => config.workspace.display(),
        PathKind::File => paths.dockerfile_path(config).display(),
        PathKind::Build => paths.build_script.display(),
        PathKind::Run => paths.run_script.display(),
    }
}

/// What is done before a file of an entry is opened.
pub fn open_entry_path(target: &UnixPath, kind: ScriptKind) -> (steps: Vec<FileStep>)
    ensures
        steps_of(steps@) == open_steps(target@, kind),
{
    let mut steps: Vec<FileStep> = Vec::new();
    steps.push(FileStep::CreateParent { path: target.clone() });
    if kind == ScriptKind::Dockerfile {
        steps.push(FileStep::WriteIfMissing { path: target.clone(), text: default_dockerfile() });
    }
    assert(steps_of(steps@) =~= open_steps(target@, kind));
    steps
}

/// What is done before the override for `scope` is opened. `exists` tells whether its script is
/// there already.
pub fn ensure_cmd_override(paths: &EntryPaths, scope: &UnixPath, exists: bool) -> (steps: Vec<
    FileStep,
>)
    ensures
        steps_of(steps@) == override_steps(paths@, scope@, exists),
{
    let mut steps: Vec<FileStep> = Vec::new();
    if !exists {
        steps.push(
            FileStep::WriteScope {
                path: paths.cmd_override_config(scope),
                config: CmdOverrideConfig { path: scope.clone() },
            },
        );
        steps.push(
            FileStep::CopyText {
                from: paths.run_script.clone(),
                to: paths.cmd_override_run_script(scope),
            },
        );
    }
    assert(steps_of(steps@) =~= override_steps(paths@, scope@, exists));
    steps
}

impl App {
    /// The program at work where the arguments or the environment say.
    pub fn new(
        root: Option<UnixPath>,
        dmgr_root: Option<UnixPath>,
        home: Option<UnixPath>,
    ) -> (result: Result<App, Error>)
        ensures
            ({
                let place = chosen_root(
                    optional_path(root),
                    optional_path(dmgr_root),
                    optional_path(home),
                );
                match result {
                    Ok(app) => place == Some(app.root@),
                    Err(e) => place is None && e@ == ErrorView::RootUnknown,
                }
            }),
    {
        let place: Option<UnixPath> = match root {
            Some(path) => Some(path),
            None => match dmgr_root {
                Some(path) => Some(path),
                None => default_root(home),
            },
        };
        match place {
            Some(root) => Ok(App { root }),
            None => Err(Error::RootUnknown),
        }
    }

    /// Where the entries lie.
    pub fn entries_dir(&self) -> (path: UnixPath)
        ensures
            path@ == entries_under(self.root@),
    {
        entries_dir(&self.root)
    }

    /// The paths of the entry of this name.
    pub fn entry_paths(&self, name: &str) -> (paths: EntryPaths)
        ensures
            paths@ == paths_under(entry_root(self.root@, name@)),
    {
        entry_paths(&self.root, name)
    }

    /// Creates an entry: what is to be done, and its place. `taken` tells whether there is
    /// something at that place already.
    pub fn create_entry(
        &self,
        name: &str,
        workspace: Option<UnixPath>,
        description: Option<String>,
        autobuild: bool,
        autobuild_order: i32,
        shell: Option<UnixPath>,
        taken: bool,
    ) -> (result: Result<(Vec<FileStep>, UnixPath), Error>)
        ensures
            match result {
                Ok((steps, place)) => {
                    &&& new_entry_error(self.root@, name@, taken) is None
                    &&& steps_of(steps@) == create_steps(
                        self.root@,
                        new_config(
                            self.root@,
                            name@,
                            optional_path(workspace),
                            optional_text(description),
                            autobuild,
                            autobuild_order as int,
                            optional_path(shell),
                        ),
                    )
                    &&& place@ == entry_root(self.root@, name@)
                },
                Err(e) => new_entry_error(self.root@, name@, taken) == Some(e@),
            },
    {
        let paths: EntryPaths = match new_entry_paths(&self.root, name, taken) {
            Ok(paths) => paths,
            Err(e) => {
                return Err(e);
            },
        };
        let ghost goal = new_config(
            self.root@,
            name@,
            optional_path(workspace),
            optional_text(description),
            autobuild,
            autobuild_order as int,
            optional_path(shell),
        );
        let (workspace, managed): (UnixPath, bool) = match workspace {
            Some(path) => (path, false),
            None => (paths.workspace_root(), true),
        };
        let shell: UnixPath = match shell {
            Some(path) => path,
            None => default_shell_path(),
        };
        let config: EntryConfig = EntryConfig {
            name: name.to_owned(),
            workspace,
            managed,
            description,
            autobuild,
            autobuild_order,
            shell,
            depends_on: Vec::new(),
        };
        assert(texts(config.depends_on@) =~= Seq::empty());
        assert(config@ == goal);
        let dockerfile: UnixPath = paths.dockerfile_path(&config);
        let mut steps: Vec<FileStep> = Vec::new();
        steps.push(FileStep::CreateEntryDir { path: paths.root.clone() });
        steps.push(FileStep::CreateWorkspace { path: config.workspace.clone() });
        steps.push(FileStep::WriteConfig { path: paths.config, config });
        steps.push(FileStep::WriteIfMissing { path: dockerfile, text: default_dockerfile() });
        steps.push(
            FileStep::Write { path: paths.build_script, text: default_build_script(name) },
        );
        steps.push(FileStep::Write { path: paths.run_script, text: default_run_script(name) });
        assert(steps_of(steps@) =~= create_steps(self.root@, goal));
        Ok((steps, paths.root))
    }
}

/// What is edited for a directory is what a run from that directory runs: the override that is
/// made says that it is for that directory, and its script is the one that runs.
pub proof fn law_edited_override_is_run(
    paths: EntryPathsView,
    workspace: Seq<u8>,
    scope: Seq<u8>,
)
    ensures
        override_steps(paths, scope, false)[0] == (FileStepView::WriteScope {
            path: override_config(paths.root, scope),
            scope,
        }),
        override_steps(paths, scope, false)[1] == (FileStepView::CopyText {
            from: paths.run_script,
            to: run_target(paths, workspace, scope, Some(scope)).script_path,
        }),
{
}

/// A new entry is where it is looked for: its configuration and its scripts are written to the
/// paths that its name stands for, whether it was created or imported.
pub proof fn law_new_entry_is_found(
    root: Seq<u8>,
    config: EntryConfigView,
    source: ImportSourceView,
)
    ensures
        ({
            let paths = paths_under(entry_root(root, config.name));
            let steps = create_steps(root, config);
            &&& steps.contains(FileStepView::WriteConfig { path: paths.config, config })
            &&& steps.contains(
                FileStepView::Write {
                    path: paths.build_script,
                    text: build_script_text(config.name),
                },
            )
            &&& steps.contains(
                FileStepView::Write { path: paths.run_script, text: run_script_text(config.name) },
            )
        }),
        ({
            let paths = paths_under(entry_root(root, source.name));
            let steps = import_steps(root, source);
            &&& steps.contains(
                FileStepView::WriteConfig { path: paths.config, config: imported_config(source) },
            )
            &&& source.build_script matches Some(script) ==> steps.contains(
                FileStepView::Copy { from: script, to: paths.build_script },
            )
            &&& steps.contains(
                FileStepView::Write { path: paths.run_script, text: run_script_text(source.name) },
            )
        }),
{
    let created = create_steps(root, config);
    assert(created[2] is WriteConfig && created[4] is Write && created[5] is Write);
    let imported = import_steps(root, source);
    assert(imported[1] is WriteConfig && imported[3] is Write);
    assert(source.build_script is Some ==> imported[2] is Copy);
}

/// A new entry manages its workspace exactly if none was given, and then the workspace lies in the
/// directory of the entry.
pub proof fn law_workspace_is_managed_unless_given(
    root: Seq<u8>,
    name: Seq<char>,
    workspace: Option<Seq<u8>>,
    description: Option<Seq<char>>,
    autobuild: bool,
    autobuild_order: int,
    shell: Option<Seq<u8>>,
)
    ensures
        ({
            let config = new_config(
                root,
                name,
                workspace,
                description,
                autobuild,
                autobuild_order,
                shell,
            );
            &&& config.managed <==> workspace is None
            &&& workspace matches Some(path) ==> config.workspace == path
            &&& workspace is None ==> config.workspace == joined(
                entry_root(root, name),
                path_of("workspace"@),
            )
        }),
{
}

} // verus!
