//! What is told: every part of a message stands in its place, whatever it says.

use vstd::prelude::*;
use vstd::string::*;

use crate::cli::InitSystem;
use crate::entry::{EntryConfigView, EntryPathsView, EntrySummaryView, ScriptKind};
use crate::error::{error_text, ErrorView};
use crate::files::{build_script_text, run_script_text};
use crate::init::init_script;
use crate::number::{decimal, digits_value, is_digit, signed_decimal, unsigned_digits};
use crate::path::shown;
use crate::progress::{job_count, model_after, result_lines, BuildTaskResult};
use crate::report::{
    duration_text, entry_line, log_header, removal_prompt, status_line, summary_line,
};
use crate::schedule::{skipped_by, with_failure, with_success, BuildModel};
use crate::script::BuildTaskOutcome;

verus! {

/// A status line has the status in brackets, a space, and the name. A detail follows behind another
/// space.
pub proof fn law_status_lines(status: Seq<char>, name: Seq<char>, detail: Seq<char>)
    ensures
        status_line(status, name, None) == seq!['['] + status + seq![']', ' '] + name,
        status_line(status, name, Some(detail)) == status_line(status, name, None) + seq![' ']
            + detail,
{
    reveal_strlit("[");
    reveal_strlit("] ");
    reveal_strlit(" ");
    assert("["@ =~= seq!['[']);
    assert("] "@ =~= seq![']', ' ']);
    assert(" "@ =~= seq![' ']);
}

/// A node that succeeds is told in one line, with the time that it took.
pub proof fn law_success_is_told(model: BuildModel, names: Seq<Seq<char>>, result: BuildTaskResult)
    requires
        result.outcome is Succeeded,
    ensures
        result_lines(model, names, result).len() == 1,
        result_lines(model, names, result)[0] == "[done] "@ + names[result.node as int] + " "@
            + duration_text(result.seconds, result.nanos),
        model_after(model, result) == with_success(model, result.node as int),
{
    lemma_done(names[result.node as int]);
}

proof fn lemma_done(name: Seq<char>)
    ensures
        "["@ + "done"@ + "] "@ + name == "[done] "@ + name,
        "["@ + "fail"@ + "] "@ + name == "[fail] "@ + name,
        "["@ + "skip"@ + "] "@ + name == "[skip] "@ + name,
{
    reveal_strlit("[");
    reveal_strlit("] ");
    reveal_strlit("done");
    reveal_strlit("fail");
    reveal_strlit("skip");
    reveal_strlit("[done] ");
    reveal_strlit("[fail] ");
    reveal_strlit("[skip] ");
    assert("["@ + "done"@ + "] "@ =~= "[done] "@);
    assert("["@ + "fail"@ + "] "@ =~= "[fail] "@);
    assert("["@ + "skip"@ + "] "@ =~= "[skip] "@);
}

/// A node that fails is told first, with its message and its log. Each node that is skipped for it
/// follows in a line of its own, which names the node that failed.
pub proof fn law_failure_is_told(
    model: BuildModel,
    names: Seq<Seq<char>>,
    result: BuildTaskResult,
    message: String,
    k: int,
)
    requires
        result.outcome == BuildTaskOutcome::Failed(message),
        0 <= k < skipped_by(model, result.node as int).len(),
    ensures
        ({
            let name = names[result.node as int];
            let skipped = skipped_by(model, result.node as int);
            let lines = result_lines(model, names, result);
            &&& lines.len() == 1 + skipped.len()
            &&& lines[0] == "[fail] "@ + name + " "@ + message@ + "; log="@ + shown(
                result.log_path@,
            )
            &&& lines[k + 1] == "[skip] "@ + names[skipped[k]] + " blocked by `"@ + name + "`"@
        }),
        model_after(model, result) == with_failure(model, result.node as int),
{
    let name = names[result.node as int];
    let skipped = skipped_by(model, result.node as int);
    let lines = result_lines(model, names, result);
    law_first_line_of_failure(model, names, result, message);
    lemma_done(names[skipped[k]]);
    reveal_strlit(" ");
    reveal_strlit("blocked by `");
    reveal_strlit(" blocked by `");
    assert(" "@ + "blocked by `"@ =~= " blocked by `"@);
    let front = "[skip] "@ + names[skipped[k]];
    assert(lines[k + 1] == front + " "@ + ("blocked by `"@ + name + "`"@));
    assert(front + " "@ + ("blocked by `"@ + name + "`"@) =~= front + (" "@ + "blocked by `"@) + name
        + "`"@);
}

/// A node that fails is told with its message and its log, whether or not others are skipped for it.
pub proof fn law_first_line_of_failure(
    model: BuildModel,
    names: Seq<Seq<char>>,
    result: BuildTaskResult,
    message: String,
)
    requires
        result.outcome == BuildTaskOutcome::Failed(message),
    ensures
        result_lines(model, names, result).len() == 1 + skipped_by(
            model,
            result.node as int,
        ).len(),
        result_lines(model, names, result)[0] == "[fail] "@ + names[result.node as int] + " "@
            + message@ + "; log="@ + shown(result.log_path@),
        model_after(model, result) == with_failure(model, result.node as int),
{
    let name = names[result.node as int];
    lemma_done(name);
    let front = "[fail] "@ + name + " "@;
    assert(front + (message@ + "; log="@ + shown(result.log_path@)) =~= front + message@
        + "; log="@ + shown(result.log_path@));
}

/// The summary tells three numbers, in this order.
pub proof fn law_summary(succeeded: nat, failed: nat, skipped: nat)
    ensures
        summary_line(succeeded, failed, skipped) == "[summary] succeeded="@ + decimal(succeeded)
            + " failed="@ + decimal(failed) + " skipped="@ + decimal(skipped),
{
}

/// Whether an entry is managed and whether it is built automatically is told by one word each. All
/// else in its line is told alike.
pub proof fn law_list_line(config: EntryConfigView)
    ensures
        entry_line(config) == config.name + "\t"@ + shown(config.workspace) + (if config.managed {
            "\tmanaged=true"@
        } else {
            "\tmanaged=false"@
        }) + (if config.autobuild {
            "\tautobuild=true"@
        } else {
            "\tautobuild=false"@
        }) + "\torder="@ + signed_decimal(config.autobuild_order),
{
    reveal_strlit("\tmanaged=");
    reveal_strlit("\tmanaged=true");
    reveal_strlit("\tmanaged=false");
    reveal_strlit("\tautobuild=");
    reveal_strlit("\tautobuild=true");
    reveal_strlit("\tautobuild=false");
    reveal_strlit("true");
    reveal_strlit("false");
    assert("\tmanaged="@ + "true"@ =~= "\tmanaged=true"@);
    assert("\tmanaged="@ + "false"@ =~= "\tmanaged=false"@);
    assert("\tautobuild="@ + "true"@ =~= "\tautobuild=true"@);
    assert("\tautobuild="@ + "false"@ =~= "\tautobuild=false"@);
    let front = config.name + "\t"@ + shown(config.workspace);
    let managed = if config.managed {
        "true"@
    } else {
        "false"@
    };
    let autobuild = if config.autobuild {
        "true"@
    } else {
        "false"@
    };
    assert(front + "\tmanaged="@ + managed =~= front + ("\tmanaged="@ + managed));
    let middle = front + "\tmanaged="@ + managed;
    assert(middle + "\tautobuild="@ + autobuild =~= middle + ("\tautobuild="@ + autobuild));
}

/// Before an entry is removed, its name, its place and its workspace are told, and that the workspace
/// goes with it exactly if it is managed.
pub proof fn law_removal_prompt(paths: EntryPathsView, config: EntryConfigView)
    ensures
        ({
            let front = "Remove entry `"@ + config.name + "`?\n  entry: "@ + shown(paths.root)
                + "\n  workspace: "@ + shown(config.workspace);
            let prompt = removal_prompt(paths, config);
            &&& config.managed ==> prompt == front
                + " (managed, workspace will be removed with the entry)\nContinue? [y/N] "@
            &&& !config.managed ==> prompt == front
                + " (external, external workspace will be preserved)\nContinue? [y/N] "@
        }),
{
    let front = "Remove entry `"@ + config.name + "`?\n  entry: "@ + shown(paths.root)
        + "\n  workspace: "@ + shown(config.workspace);
    reveal_strlit(" (managed, workspace will be removed with the entry)\n");
    reveal_strlit(" (external, external workspace will be preserved)\n");
    reveal_strlit("Continue? [y/N] ");
    reveal_strlit(" (managed, workspace will be removed with the entry)\nContinue? [y/N] ");
    reveal_strlit(" (external, external workspace will be preserved)\nContinue? [y/N] ");
    let (managed, external, ask) = (
        " (managed, workspace will be removed with the entry)\n"@,
        " (external, external workspace will be preserved)\n"@,
        "Continue? [y/N] "@,
    );
    assert(managed + ask
        =~= " (managed, workspace will be removed with the entry)\nContinue? [y/N] "@);
    assert(external + ask
        =~= " (external, external workspace will be preserved)\nContinue? [y/N] "@);
    assert(front + managed + ask =~= front + (managed + ask));
    assert(front + external + ask =~= front + (external + ask));
}

/// The log of a build begins with the entry, its workspace and its script.
pub proof fn law_log_header(entry: EntrySummaryView)
    ensures
        log_header(entry) == "# dmgr build log\n# entry="@ + entry.config.name + "\n# workspace="@
            + shown(entry.config.workspace) + "\n# script="@ + shown(entry.paths.build_script)
            + "\n\n"@,
{
}

/// The scripts of a new entry build and run the image that is named like the entry.
pub proof fn law_new_scripts(name: Seq<char>)
    ensures
        build_script_text(name) == "#!/usr/bin/env sh\nset -eu\ndocker build -t "@ + name
            + " -f Dockerfile .\n"@,
        run_script_text(name) == "#!/usr/bin/env sh\nset -eu\ndocker run --rm -it "@ + name + "\n"@,
{
}

/// A service is these three texts, with a program and a root between them.
pub open spec fn is_service_around(
    system: InitSystem,
    front: Seq<char>,
    middle: Seq<char>,
    back: Seq<char>,
) -> bool {
    forall|program: Seq<char>, root: Seq<u8>| #[trigger]
        init_script(system, program, root) == front + program + middle + shown(root) + back
}

/// A service calls the program that it is made for, on the root that it is made for. Nothing else of
/// it depends on either.
pub proof fn law_services_call_the_program(system: InitSystem)
    ensures
        exists|front: Seq<char>, middle: Seq<char>, back: Seq<char>|
            is_service_around(system, front, middle, back),
        forall|program: Seq<char>, root: Seq<u8>|
            init_script(InitSystem::Systemd, program, root) != #[trigger] init_script(
                InitSystem::Openrc,
                program,
                root,
            ),
{
    match system {
        InitSystem::Systemd => {
            let front =
                "[Unit]\nDescription=dmgr autobuild\nAfter=network-online.target docker.service\nWants=network-online.target docker.service\n\n[Service]\nType=oneshot\nExecStart="@;
            let middle = " --root "@;
            let back = " build --autobuild\n\n[Install]\nWantedBy=multi-user.target\n"@;
            assert(is_service_around(system, front, middle, back));
        },
        InitSystem::Openrc => {
            let front =
                "#!/sbin/openrc-run\nname=\"dmgr-autobuild\"\ndescription=\"Build dmgr autobuild entries during boot\"\ncommand=\""@;
            let middle = "\"\ncommand_args=\"build --autobuild\"\ncommand_env=\"DMGR_ROOT="@;
            let back =
                "\"\npidfile=\"/run/${RC_SVCNAME}.pid\"\n\ncommand_background=false\n\nstart_pre() {\n    checkpath --directory --mode 0755 /run\n}\n\ndepend() {\n    need docker\n    after net\n}\n"@;
            assert(is_service_around(system, front, middle, back));
        },
    }
    assert forall|program: Seq<char>, root: Seq<u8>|
        init_script(InitSystem::Systemd, program, root) != #[trigger] init_script(
            InitSystem::Openrc,
            program,
            root,
        ) by {
        reveal_strlit(
            "[Unit]\nDescription=dmgr autobuild\nAfter=network-online.target docker.service\nWants=network-online.target docker.service\n\n[Service]\nType=oneshot\nExecStart=",
        );
        reveal_strlit(
            "#!/sbin/openrc-run\nname=\"dmgr-autobuild\"\ndescription=\"Build dmgr autobuild entries during boot\"\ncommand=\"",
        );
        assert(init_script(InitSystem::Systemd, program, root)[0] == '[');
        assert(init_script(InitSystem::Openrc, program, root)[0] == '#');
    }
}

/// A message names the entry that it is about, whatever its name.
pub proof fn law_messages_about_names(name: Seq<char>, root: Seq<u8>)
    ensures
        error_text(ErrorView::NameUnsupported { name }) == "entry name `"@ + name
            + "` contains unsupported characters"@,
        error_text(ErrorView::EntryExists { name, root }) == "entry `"@ + name
            + "` already exists at "@ + shown(root),
        error_text(ErrorView::DependencyCycle { name }) == "detected build dependency cycle at `"@
            + name + "`"@,
        error_text(ErrorView::UnknownEntry { name }) == "entry `"@ + name + "` not found"@,
{
}

/// A message shows the path that it is about, whatever the path.
pub proof fn law_messages_about_paths(path: Seq<u8>)
    ensures
        error_text(ErrorView::EntryNotFound { root: path }) == "entry not found at "@ + shown(path),
        error_text(ErrorView::ImportNotDirectory { path }) == "import path must be a directory: "@
            + shown(path),
        error_text(ErrorView::NothingToImport { path }) == "no importable entries found under "@
            + shown(path),
{
}

/// A message about what was run tells what it was and how it ended.
pub proof fn law_messages_about_programs(
    name: Seq<char>,
    status: Seq<char>,
    failed: nat,
    skipped: nat,
)
    ensures
        error_text(ErrorView::ScriptFailed { kind: ScriptKind::Build, name, status })
            == "build script for entry `"@ + name + "` exited with status "@ + status,
        error_text(ErrorView::ScriptFailed { kind: ScriptKind::Run, name, status })
            == "run script for entry `"@ + name + "` exited with status "@ + status,
        error_text(ErrorView::ScriptFailed { kind: ScriptKind::Dockerfile, name, status })
            == "Dockerfile for entry `"@ + name + "` exited with status "@ + status,
        error_text(ErrorView::EditorFailed { program: name, status }) == "editor `"@ + name
            + "` exited with status "@ + status,
        error_text(ErrorView::EditorUnreadable { raw: name }) == "failed to parse editor command `"@
            + name + "`: missing closing quote"@,
        error_text(ErrorView::BuildFailed { failed, skipped }) == "build failed: "@ + decimal(
            failed,
        ) + " failed, "@ + decimal(skipped) + " skipped"@,
{
    reveal_strlit("build script");
    reveal_strlit("run script");
    reveal_strlit("Dockerfile");
    reveal_strlit(" for entry `");
    reveal_strlit("build script for entry `");
    reveal_strlit("run script for entry `");
    reveal_strlit("Dockerfile for entry `");
    assert("build script"@ + " for entry `"@ =~= "build script for entry `"@);
    assert("run script"@ + " for entry `"@ =~= "run script for entry `"@);
    assert("Dockerfile"@ + " for entry `"@ =~= "Dockerfile for entry `"@);
}

/// Where nothing is said of the number of jobs, or what is said is empty, zero, or holds something
/// that is no digit, the machine decides, and without it one job is run at a time.
pub proof fn law_jobs_unless_asked(variable: String, parallelism: Option<usize>, i: int)
    ensures
        ({
            let usual = if parallelism is Some {
                parallelism->0 as int
            } else {
                1
            };
            &&& job_count(None, parallelism) == usual
            &&& variable@.len() == 0 ==> job_count(Some(variable), parallelism) == usual
            &&& 0 <= i < variable@.len() && !('0' <= variable@[i] <= '9') && (i > 0 || variable@[i]
                != '+') ==> job_count(Some(variable), parallelism) == usual
            &&& digits_value(unsigned_digits(variable@)) == 0 ==> job_count(
                Some(variable),
                parallelism,
            ) == usual
        }),
{
    let text = variable@;
    if 0 <= i < text.len() && !('0' <= text[i] <= '9') && (i > 0 || text[i] != '+') {
        let digits = unsigned_digits(text);
        if text[0] == '+' {
            assert(digits[i - 1] == text[i]);
            assert(!is_digit(digits[i - 1]));
        } else {
            assert(!is_digit(digits[i]));
        }
    }
}

/// A number of jobs above zero may have a plus sign in front.
pub proof fn law_jobs_behind_a_plus(digits: String, signed: String, parallelism: Option<usize>)
    requires
        signed@ == seq!['+'] + digits@,
        digits@.len() > 0,
        digits@[0] != '+',
    ensures
        job_count(Some(signed), parallelism) == job_count(Some(digits), parallelism),
{
    assert(signed@[0] == '+');
    assert(signed@.skip(1) =~= digits@);
}

} // verus!
