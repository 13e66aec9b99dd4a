use dmgr::app::{
    default_root, dispatch, ensure_cmd_override, handle_path, open_entry_path, resolve_cmd_scope,
    App, CmdScope, Task,
};
use dmgr::cli::{
    Cli, CmdCommands, Commands, EntryCommands, FileCommands, InitSystem, PathKind, ScriptCommands,
};
use dmgr::entries::BuildRequest;
use dmgr::entry::{CmdOverrideConfig, EntryConfig, EntryPaths, EntrySummary, ScriptKind};
use dmgr::error::Error;
use dmgr::files::{default_build_script, default_dockerfile, default_run_script, default_shell_path, FileStep};
use dmgr::names::{ensure_entry_exists, new_entry_paths, validate_name};
use dmgr::path::UnixPath;
use dmgr::removal::handle_rm;
use dmgr::report::{
    build_log_header, build_status, build_summary, cmd_scope, confirm_rm, entry_summary,
    rm_prompt,
};
use dmgr::script::{
    build_command, build_finished, build_log_path, resolve_run_target, resolve_shell_command,
    run_command, script_finished, stored_override, BuildTaskOutcome, ResolvedRunTarget, ScriptCommand,
};

fn path(text: &str) -> UnixPath {
    UnixPath::new(text)
}

fn some(text: &str) -> Option<UnixPath> {
    Some(UnixPath::new(text))
}

fn app() -> App {
    App { root: path("/r") }
}

fn created(workspace: Option<UnixPath>) -> Vec<FileStep> {
    let (steps, place) = app()
        .create_entry("dev", workspace, None, false, 100, None, false)
        .expect("create entry");
    assert_eq!(place.display(), "/r/entries/dev");
    steps
}

fn written_config(steps: &[FileStep]) -> EntryConfig {
    for step in steps {
        if let FileStep::WriteConfig { config, .. } = step {
            return config.clone();
        }
    }
    panic!("no configuration");
}

fn env_of(command: &ScriptCommand) -> Vec<(String, String)> {
    command.env.iter().map(|(name, value)| (name.clone(), value.display())).collect()
}

#[test]
fn missing_absolute_shell_falls_back_to_program_name() {
    let resolved = resolve_shell_command(&path("/__dmgr_missing__/sh"), false);
    assert_eq!(resolved, path("sh"));
}

#[test]
fn other_shells_are_used_as_configured() {
    assert_eq!(resolve_shell_command(&path("/bin/sh"), true).display(), "/bin/sh");
    assert_eq!(resolve_shell_command(&path("bin/sh"), false).display(), "bin/sh");
    assert_eq!(resolve_shell_command(&path("sh"), false).display(), "sh");
    assert_eq!(resolve_shell_command(&path("/"), false).display(), "/");
    assert_eq!(resolve_shell_command(&path("/.."), false).display(), "/..");
}

#[test]
fn root_comes_from_arguments_then_environment_then_home() {
    let root = |a, b, c| App::new(a, b, c).expect("root").root.display();
    assert_eq!(root(some("/arg"), some("/env"), some("/home/u")), "/arg");
    assert_eq!(root(None, some("/env"), some("/home/u")), "/env");
    assert_eq!(root(None, None, some("/home/u")), "/home/u/.config/dmgr");
    let error = App::new(None, None, None).expect_err("no root");
    assert_eq!(error, Error::RootUnknown);
    assert_eq!(
        error.message(),
        "failed to determine dmgr root, pass --root or set DMGR_ROOT"
    );
    assert_eq!(default_root(some("/home/u")), some("/home/u/.config/dmgr"));
    assert_eq!(default_root(None), None);
    assert_eq!(app().entries_dir().display(), "/r/entries");
    assert_eq!(app().entry_paths("dev").run_script.display(), "/r/entries/dev/run.sh");
}

#[test]
fn commands_become_tasks() {
    let name = || "dev".to_string();
    let cli = Cli { root: None, command: Commands::BuildAll };
    assert!(matches!(dispatch(cli.command), Ok(Task::Build { request: BuildRequest::All })));
    assert!(matches!(
        dispatch(Commands::File { command: FileCommands::Edit { name: name() } }),
        Ok(Task::OpenEntryPath { name, kind: ScriptKind::Dockerfile }) if name == "dev"
    ));
    assert!(matches!(
        dispatch(Commands::Script { command: ScriptCommands::Edit { name: name() } }),
        Ok(Task::OpenEntryPath { name, kind: ScriptKind::Build }) if name == "dev"
    ));
    assert!(matches!(
        dispatch(Commands::Cmd {
            command: CmdCommands::Edit { name: name(), cwd: true, workspace: None }
        }),
        Ok(Task::OpenCmdPath { name, cwd: true, workspace: None }) if name == "dev"
    ));
    assert!(matches!(
        dispatch(Commands::Entry { command: EntryCommands::List { autobuild: true } }),
        Ok(Task::ListEntries { autobuild_only: true })
    ));
    assert!(matches!(
        dispatch(Commands::Entry {
            command: EntryCommands::Create {
                name: name(),
                workspace: None,
                description: None,
                autobuild: true,
                autobuild_order: 7,
                shell: None,
            }
        }),
        Ok(Task::CreateEntry { autobuild: true, autobuild_order: 7, .. })
    ));
    assert!(matches!(
        dispatch(Commands::Import { path: path("/src") }),
        Ok(Task::Import { path }) if path == UnixPath::new("/src")
    ));
    assert!(matches!(
        dispatch(Commands::Build { name: Some(name()), autobuild: false }),
        Ok(Task::Build { request: BuildRequest::One { name } }) if name == "dev"
    ));
    assert!(matches!(
        dispatch(Commands::Build { name: None, autobuild: true }),
        Ok(Task::Build { request: BuildRequest::Autobuild })
    ));
    assert!(matches!(
        dispatch(Commands::Build { name: Some(name()), autobuild: true }),
        Err(Error::BuildTargetConflict)
    ));
    assert!(matches!(
        dispatch(Commands::Build { name: None, autobuild: false }),
        Err(Error::BuildTargetMissing)
    ));
    assert!(matches!(
        dispatch(Commands::Rm { name: name(), yes: true }),
        Ok(Task::Rm { yes: true, .. })
    ));
    assert!(matches!(dispatch(Commands::Run { name: name() }), Ok(Task::Run { .. })));
    assert!(matches!(
        dispatch(Commands::Path { name: name(), kind: PathKind::File }),
        Ok(Task::Path { kind: PathKind::File, .. })
    ));
    assert!(matches!(
        dispatch(Commands::Init { system: InitSystem::Openrc, output: None, dmgr_bin: name() }),
        Ok(Task::Init { system: InitSystem::Openrc, .. })
    ));
}

#[test]
fn names_are_checked() {
    for good in ["dev", "a-b_c.d", "A9", ".", ".."] {
        assert_eq!(validate_name(good), Ok(()));
    }
    assert_eq!(validate_name("").expect_err("empty").message(), "entry name must not be empty");
    for bad in ["a/b", "a b", "é", "a\n", "*"] {
        assert_eq!(
            validate_name(bad).expect_err("bad").message(),
            format!("entry name `{bad}` contains unsupported characters")
        );
    }
}

#[test]
fn new_entries_need_a_free_place() {
    let root = path("/r");
    assert_eq!(new_entry_paths(&root, "dev", false).expect("free").root.display(), "/r/entries/dev");
    assert_eq!(
        new_entry_paths(&root, "dev", true).expect_err("taken"),
        Error::EntryExists { name: "dev".to_string(), root: path("/r/entries/dev") }
    );
    assert_eq!(new_entry_paths(&root, "", true).expect_err("empty"), Error::NameEmpty);
    let taken = app().create_entry("dev", None, None, false, 100, None, true);
    assert_eq!(taken.expect_err("taken").message(), "entry `dev` already exists at /r/entries/dev");
}

#[test]
fn create_entry_writes_expected_files() {
    let steps = created(None);
    assert_eq!(
        steps,
        vec![
            FileStep::CreateEntryDir { path: path("/r/entries/dev") },
            FileStep::CreateWorkspace { path: path("/r/entries/dev/workspace") },
            FileStep::WriteConfig {
                path: path("/r/entries/dev/entry.toml"),
                config: EntryConfig {
                    name: "dev".to_string(),
                    workspace: path("/r/entries/dev/workspace"),
                    managed: true,
                    description: None,
                    autobuild: false,
                    autobuild_order: 100,
                    shell: path("sh"),
                    depends_on: Vec::new(),
                },
            },
            FileStep::WriteIfMissing {
                path: path("/r/entries/dev/workspace/Dockerfile"),
                text: "FROM alpine:latest\n".to_string(),
            },
            FileStep::Write {
                path: path("/r/entries/dev/build.sh"),
                text: "#!/usr/bin/env sh\nset -eu\ndocker build -t dev -f Dockerfile .\n".to_string(),
            },
            FileStep::Write {
                path: path("/r/entries/dev/run.sh"),
                text: "#!/usr/bin/env sh\nset -eu\ndocker run --rm -it dev\n".to_string(),
            },
        ]
    );
}

#[test]
fn create_entry_uses_external_workspace_when_requested() {
    let steps = created(some("/external-workspace"));
    let config = written_config(&steps);
    assert!(!config.managed);
    assert_eq!(config.workspace, path("/external-workspace"));
    assert!(steps.contains(&FileStep::CreateWorkspace { path: path("/external-workspace") }));
}

#[test]
fn create_entry_keeps_existing_external_dockerfile() {
    let steps = created(some("/external-existing"));
    assert!(steps.contains(&FileStep::WriteIfMissing {
        path: path("/external-existing/Dockerfile"),
        text: default_dockerfile(),
    }));
    assert!(!steps.iter().any(|step| matches!(
        step,
        FileStep::Write { path, .. } if *path == UnixPath::new("/external-existing/Dockerfile")
    )));
}

#[test]
fn create_entry_keeps_what_is_asked_for() {
    let (steps, _) = app()
        .create_entry("dev", None, Some("mine".to_string()), true, -4, some("bash"), false)
        .expect("create entry");
    let config = written_config(&steps);
    assert_eq!(config.description, Some("mine".to_string()));
    assert!(config.autobuild);
    assert_eq!(config.autobuild_order, -4);
    assert_eq!(config.shell, path("bash"));
    assert_eq!(default_shell_path(), path("sh"));
    assert_eq!(default_build_script("x"), "#!/usr/bin/env sh\nset -eu\ndocker build -t x -f Dockerfile .\n");
    assert_eq!(default_run_script("x"), "#!/usr/bin/env sh\nset -eu\ndocker run --rm -it x\n");
}

#[test]
fn missing_entries_are_told() {
    let paths = EntryPaths::new(path("/r/entries/dev"));
    assert_eq!(ensure_entry_exists(&paths, true), Ok(()));
    let error = ensure_entry_exists(&paths, false).expect_err("missing");
    assert_eq!(error.message(), "entry not found at /r/entries/dev");
}

#[test]
fn paths_are_shown_by_kind() {
    let entry = EntrySummary::for_test("dev", 1, false);
    let shown = |kind| handle_path(&entry.paths, &entry.config, kind);
    assert_eq!(shown(PathKind::Entry), "/tmp/dev");
    assert_eq!(shown(PathKind::Config), "/tmp/dev/entry.toml");
    assert_eq!(shown(PathKind::Workspace), "/workspace/example");
    assert_eq!(shown(PathKind::File), "/workspace/example/Dockerfile");
    assert_eq!(shown(PathKind::Build), "/tmp/dev/build.sh");
    assert_eq!(shown(PathKind::Run), "/tmp/dev/run.sh");
}

#[test]
fn missing_dockerfile_is_made_before_it_is_opened() {
    let target = path("/w/Dockerfile");
    let parent = || FileStep::CreateParent { path: path("/w/Dockerfile") };
    assert_eq!(
        open_entry_path(&target, ScriptKind::Dockerfile),
        vec![
            parent(),
            FileStep::WriteIfMissing { path: path("/w/Dockerfile"), text: default_dockerfile() },
        ]
    );
    assert_eq!(open_entry_path(&target, ScriptKind::Build), vec![parent()]);
    assert_eq!(open_entry_path(&target, ScriptKind::Run), vec![parent()]);
}

#[test]
fn run_command_is_chosen_once() {
    assert!(matches!(resolve_cmd_scope(false, None), Ok(CmdScope::Default)));
    assert!(matches!(resolve_cmd_scope(true, None), Ok(CmdScope::CurrentDir)));
    assert!(matches!(
        resolve_cmd_scope(false, some("/w")),
        Ok(CmdScope::Workspace { path }) if path == UnixPath::new("/w")
    ));
    let error = resolve_cmd_scope(true, some("/w")).expect_err("both");
    assert_eq!(error.message(), "pass either --cwd or --workspace, not both");
}

#[test]
fn cmd_edit_with_cwd_creates_override_from_default() {
    let paths = EntryPaths::new(path("/r/entries/dev"));
    let scope = path("/p");
    assert_eq!(
        ensure_cmd_override(&paths, &scope, false),
        vec![
            FileStep::WriteScope {
                path: path("/r/entries/dev/cmd-overrides/2f70/scope.toml"),
                config: CmdOverrideConfig { path: path("/p") },
            },
            FileStep::CopyText {
                from: path("/r/entries/dev/run.sh"),
                to: path("/r/entries/dev/cmd-overrides/2f70/run.sh"),
            },
        ]
    );
    assert!(ensure_cmd_override(&paths, &scope, true).is_empty());
}

#[test]
fn run_uses_default_cmd_when_no_override_matches() {
    let app = app();
    let paths = app.entry_paths("dev");
    let config = written_config(&created(None));
    let other = Some(CmdOverrideConfig { path: path("/elsewhere") });
    for stored in [None, other] {
        let target = resolve_run_target(&paths, &config, &path("/other-dir"), stored);
        assert_eq!(cmd_scope(&target.scope_label), "using cmd scope: default");
        let command = run_command(&paths, &config, &target, true);
        assert_eq!(command.script.display(), "/r/entries/dev/run.sh");
        assert_eq!(command.current_dir.display(), "/r/entries/dev");
        assert_eq!(
            env_of(&command)[4],
            ("DMGR_RUN_DIR".to_string(), "/r/entries/dev/workspace".to_string())
        );
    }
}

#[test]
fn run_uses_cwd_override_when_present() {
    let app = app();
    let paths = app.entry_paths("dev");
    let config = written_config(&created(None));
    let scope = path("/project-b");
    let stored = Some(CmdOverrideConfig { path: path("/project-b/") });
    let target: ResolvedRunTarget = resolve_run_target(&paths, &config, &scope, stored);
    assert_eq!(cmd_scope(&target.scope_label), "using cmd scope: /project-b");
    let command = run_command(&paths, &config, &target, true);
    assert_eq!(command.script, paths.cmd_override_run_script(&scope));
    assert_eq!(command.current_dir.display(), "/r/entries/dev");
    assert_eq!(
        env_of(&command)[4],
        ("DMGR_RUN_DIR".to_string(), "/project-b".to_string())
    );
}

#[test]
fn builds_run_in_the_workspace() {
    let entry = EntrySummary::for_test("dev", 1, false);
    let command = build_command(&entry, false);
    assert_eq!(command.program.display(), "sh");
    assert_eq!(command.script.display(), "/tmp/dev/build.sh");
    assert_eq!(command.current_dir.display(), "/workspace/example");
    let pair = |name: &str, value: &str| (name.to_string(), value.to_string());
    assert_eq!(
        env_of(&command),
        vec![
            pair("DMGR_ENTRY_NAME", "dev"),
            pair("DMGR_ENTRY_ROOT", "/tmp/dev"),
            pair("DMGR_ENTRY_WORKSPACE", "/workspace/example"),
            pair("DMGR_CMD_PATH", "/tmp/dev/build.sh"),
            pair("DMGR_RUN_DIR", "/workspace/example"),
        ]
    );
    assert_eq!(build_command(&entry, true).program.display(), "/bin/sh");
    assert_eq!(build_log_path(&entry).display(), "/tmp/dev/build.last.log");
    assert_eq!(
        build_log_header(&entry),
        "# dmgr build log\n# entry=dev\n# workspace=/workspace/example\n# script=/tmp/dev/build.sh\n\n"
    );
}

#[test]
fn scripts_that_fail_are_told() {
    let entry = EntrySummary::for_test("dev", 1, false);
    assert_eq!(script_finished(ScriptKind::Run, &entry.config, true, "exit status: 0"), Ok(()));
    let error = script_finished(ScriptKind::Run, &entry.config, false, "exit status: 3")
        .expect_err("failure");
    assert_eq!(error.message(), "run script for entry `dev` exited with status exit status: 3");
    assert!(matches!(build_finished(true, "exit status: 0"), BuildTaskOutcome::Succeeded));
    assert!(matches!(
        build_finished(false, "exit status: 7"),
        BuildTaskOutcome::Failed(message) if message == "exit status exit status: 7"
    ));
}

#[test]
fn status_lines_name_status_and_entry() {
    assert_eq!(build_status("start", "alpha", None), "[start] alpha");
    assert_eq!(build_status("done", "alpha", Some("1.00s")), "[done] alpha 1.00s");
    assert_eq!(build_summary(3, 0, 12), "[summary] succeeded=3 failed=0 skipped=12");
}

#[test]
fn entries_are_listed_in_a_line() {
    let mut entry = EntrySummary::for_test("dev", -10, true);
    assert_eq!(
        entry_summary(&entry),
        "dev\t/workspace/example\tmanaged=false\tautobuild=true\torder=-10"
    );
    entry.config.managed = true;
    entry.config.autobuild = false;
    assert_eq!(
        entry_summary(&entry),
        "dev\t/workspace/example\tmanaged=true\tautobuild=false\torder=-10"
    );
}

#[test]
fn removal_is_asked_for() {
    let mut entry = EntrySummary::for_test("dev", 1, false);
    assert_eq!(
        rm_prompt(&entry.paths, &entry.config, false).expect("prompt"),
        "Remove entry `dev`?\n  entry: /tmp/dev\n  workspace: /workspace/example (external, external workspace will be preserved)\nContinue? [y/N] "
    );
    entry.config.managed = true;
    assert_eq!(
        rm_prompt(&entry.paths, &entry.config, false).expect("prompt"),
        "Remove entry `dev`?\n  entry: /tmp/dev\n  workspace: /workspace/example (managed, workspace will be removed with the entry)\nContinue? [y/N] "
    );
}

#[test]
fn removal_is_not_asked_for_when_it_is_said_already() {
    let entry = EntrySummary::for_test("dev", 1, false);
    assert_eq!(rm_prompt(&entry.paths, &entry.config, true), None);
}

#[test]
fn overrides_count_only_in_full() {
    let paths = EntryPaths::new(path("/r/entries/dev"));
    let file = |config, script| stored_override(&paths, &path("/p"), config, script);
    assert_eq!(file(true, true), some("/r/entries/dev/cmd-overrides/2f70/scope.toml"));
    assert_eq!(file(true, false), None);
    assert_eq!(file(false, true), None);
    assert_eq!(file(false, false), None);
}

#[test]
fn rm_deletes_managed_entry_root() {
    let app = app();
    let paths = app.entry_paths("dev");
    let removed = || vec![FileStep::RemoveEntryDir { path: path("/r/entries/dev") }];
    assert_eq!(handle_rm(&paths, true, false, "y\n"), Ok(removed()));
    assert_eq!(written_config(&created(None)).workspace, path("/r/entries/dev/workspace"));
}

#[test]
fn rm_keeps_external_workspace_contents() {
    let app = app();
    let paths = app.entry_paths("dev");
    let config = written_config(&created(some("/external-rm")));
    assert_eq!(config.workspace, path("/external-rm"));
    let steps = handle_rm(&paths, true, true, "").expect("removal");
    assert_eq!(steps, vec![FileStep::RemoveEntryDir { path: path("/r/entries/dev") }]);
}

#[test]
fn nothing_is_removed_that_is_missing_or_not_confirmed() {
    let paths = app().entry_paths("dev");
    let missing = handle_rm(&paths, false, true, "y").expect_err("missing");
    assert_eq!(missing, Error::EntryNotFound { root: path("/r/entries/dev") });
    assert_eq!(handle_rm(&paths, true, false, "").expect_err("no answer"), Error::Aborted);
}

#[test]
fn removal_goes_on_when_confirmed() {
    for answer in ["y\n", "Y", "yes\r\n", "YES", " Yes "] {
        assert_eq!(confirm_rm(answer), Ok(()));
    }
}

#[test]
fn rm_aborts_without_confirmation() {
    for answer in ["n\n", "", "\n", "yEs", "yes please", "y y"] {
        let refused = handle_rm(&app().entry_paths("dev"), true, false, answer);
        assert_eq!(refused, Err(Error::Aborted));
        let error = confirm_rm(answer).expect_err("not confirmed");
        assert_eq!(error, Error::Aborted);
        assert_eq!(error.message(), "aborted");
    }
}
