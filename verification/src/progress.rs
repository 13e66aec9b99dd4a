//! How a build goes on, is told, and ends.

use vstd::prelude::*;
use vstd::string::*;

use crate::build_run::BuildRun;
use crate::error::{Error, ErrorView};
use crate::graph::{positions, BuildNodeState};
use crate::number::{
    decimal, digits_value, law_decimal_is_read_back, means_number, parse_usize, unsigned_digits,
};
use crate::path::{shown, UnixPath};
use crate::report::{
    build_status, build_summary, duration_text, format_duration, status_line, summary_line,
};
use crate::schedule::{count_in, skipped_by, with_failure, with_success, BuildModel};
use crate::script::{failure_of, BuildTaskOutcome};
use crate::text::texts;

verus! {

/// What came of the build of one node.
#[derive(Debug)]
pub struct BuildTaskResult {
    pub node: usize,
    /// How long it took: whole seconds, and the nanoseconds beyond them.
    pub seconds: u64,
    pub nanos: u32,
    pub log_path: UnixPath,
    pub outcome: BuildTaskOutcome,
}

/// What is told of a node that failed.
pub open spec fn failure_detail(message: Seq<char>, log_path: Seq<u8>) -> Seq<char> {
    message + "; log="@ + shown(log_path)
}

/// What is told of a node that is skipped.
pub open spec fn skip_detail(blocked_by: Seq<char>) -> Seq<char> {
    "blocked by `"@ + blocked_by + "`"@
}

/// The lines for nodes that are skipped because of `blocked_by`.
pub open spec fn skip_lines(
    names: Seq<Seq<char>>,
    skipped: Seq<int>,
    blocked_by: Seq<char>,
) -> Seq<Seq<char>> {
    skipped.map_values(|i: int| status_line("skip"@, names[i], Some(skip_detail(blocked_by))))
}

/// What is told when a node comes to its end: that it is done and how long it took, or that it
/// failed and what is skipped for it.
pub open spec fn result_lines(
    model: BuildModel,
    names: Seq<Seq<char>>,
    result: BuildTaskResult,
) -> Seq<Seq<char>> {
    let name = names[result.node as int];
    match failure_of(result.outcome) {
        None => seq![
            status_line("done"@, name, Some(duration_text(result.seconds, result.nanos))),
        ],
        Some(message) => seq![
            status_line("fail"@, name, Some(failure_detail(message, result.log_path@))),
        ] + skip_lines(names, skipped_by(model, result.node as int), name),
    }
}

/// The build once a node came to its end.
pub open spec fn model_after(model: BuildModel, result: BuildTaskResult) -> BuildModel {
    match failure_of(result.outcome) {
        None => with_success(model, result.node as int),
        Some(_) => with_failure(model, result.node as int),
    }
}

fn skip_status_lines(run: &BuildRun, skipped: &Vec<usize>, blocked_by: &str) -> (lines: Vec<String>)
    requires
        run.fits(),
        forall|i: int| 0 <= i < skipped@.len() ==> #[trigger] skipped@[i] < run.names().len(),
    ensures
        texts(lines@) == skip_lines(run.names(), positions(skipped@), blocked_by@),
{
    let mut detail: String = "blocked by `".to_owned();
    detail.append(blocked_by);
    detail.append("`");
    let mut lines: Vec<String> = Vec::new();
    let mut i: usize = 0;
    while i < skipped.len()
        invariant
            i <= skipped@.len(),
            run.fits(),
            forall|i: int| 0 <= i < skipped@.len() ==> #[trigger] skipped@[i] < run.names().len(),
            detail@ == skip_detail(blocked_by@),
            lines@.len() == i,
            forall|j: int|
                0 <= j < i ==> (#[trigger] lines@[j])@ == status_line(
                    "skip"@,
                    run.names()[skipped@[j] as int],
                    Some(detail@),
                ),
        decreases skipped@.len() - i,
    {
        let name: &String = run.name(skipped[i]);
        lines.push(build_status("skip", name.as_str(), Some(detail.as_str())));
        i = i + 1;
    }
    assert(texts(lines@) =~= skip_lines(run.names(), positions(skipped@), blocked_by@));
    lines
}

/// Takes in what came of a node, and gives the lines that tell it.
pub fn take_result(run: &mut BuildRun, result: &BuildTaskResult) -> (lines: Vec<String>)
    requires
        old(run).fits(),
        result.node < old(run).names().len(),
        old(run).model().states[result.node as int] == BuildNodeState::Running,
        result.nanos < 1_000_000_000,
    ensures
        final(run).fits(),
        final(run).model() == model_after(old(run).model(), *result),
        final(run).names() == old(run).names(),
        final(run).entries() == old(run).entries(),
        texts(lines@) == result_lines(old(run).model(), old(run).names(), *result),
{
    let ghost start = run.model();
    proof {
        run.lemma_fits();
    }
    let node: usize = result.node;
    let name: String = run.name(node).clone();
    match &result.outcome {
        BuildTaskOutcome::Succeeded => {
            run.task_succeeded(node);
            let took: String = format_duration(result.seconds, result.nanos);
            let mut lines: Vec<String> = Vec::new();
            lines.push(build_status("done", name.as_str(), Some(took.as_str())));
            assert(texts(lines@) =~= result_lines(start, run.names(), *result));
            lines
        },
        BuildTaskOutcome::Failed(message) => {
            let skipped: Vec<usize> = run.task_failed(node);
            proof {
                run.lemma_skipped_have_names(start, node as int, skipped@);
            }
            let log: String = result.log_path.display();
            let mut detail: String = message.clone();
            detail.append("; log=");
            detail.append(log.as_str());
            let mut lines: Vec<String> = Vec::new();
            lines.push(build_status("fail", name.as_str(), Some(detail.as_str())));
            let ghost first = texts(lines@);
            let mut more: Vec<String> = skip_status_lines(run, &skipped, name.as_str());
            let ghost rest = texts(more@);
            lines.append(&mut more);
            assert(texts(lines@) =~= first + rest);
            assert(texts(lines@) =~= result_lines(start, run.names(), *result));
            lines
        },
    }
}

/// The line that tells how a build ended, and whether it ended well: nothing failed.
pub fn finish_build(run: &BuildRun) -> (result: (String, Result<(), Error>))
    ensures
        ({
            let states = run.model().states;
            let failed = count_in(states, BuildNodeState::Failed);
            let skipped = count_in(states, BuildNodeState::Skipped);
            &&& result.0@ == summary_line(
                count_in(states, BuildNodeState::Succeeded),
                failed,
                skipped,
            )
            &&& match result.1 {
                Ok(()) => failed == 0,
                Err(e) => failed > 0 && e@ == (ErrorView::BuildFailed { failed, skipped }),
            }
        }),
{
    let succeeded: usize = run.count(BuildNodeState::Succeeded);
    let failed: usize = run.count(BuildNodeState::Failed);
    let skipped: usize = run.count(BuildNodeState::Skipped);
    let line: String = build_summary(succeeded, failed, skipped);
    if failed > 0 {
        (line, Err(Error::BuildFailed { failed, skipped }))
    } else {
        (line, Ok(()))
    }
}

/// How many nodes may run at once: what the variable says if that is a number above zero, or else
/// what the machine offers, or else one.
pub open spec fn job_count(variable: Option<String>, parallelism: Option<usize>) -> int {
    let usual = match parallelism {
        Some(n) => n as int,
        None => 1,
    };
    match variable {
        Some(text) => {
            let n = digits_value(unsigned_digits(text@)) as int;
            if means_number(text@, usize::MAX as int) && n > 0 {
                n
            } else {
                usual
            }
        },
        None => usual,
    }
}

/// How many nodes may run at once. `variable` is the value of `DMGR_BUILD_JOBS`, and `parallelism`
/// is what the machine offers, where it is known.
pub fn build_jobs(variable: Option<String>, parallelism: Option<usize>) -> (jobs: usize)
    requires
        parallelism matches Some(n) ==> n > 0,
    ensures
        jobs == job_count(variable, parallelism),
        jobs > 0,
{
    match &variable {
        Some(text) => {
            match parse_usize(text.as_str()) {
                Some(n) => {
                    if n > 0 {
                        return n;
                    }
                },
                None => {},
            }
        },
        None => {},
    }
    match parallelism {
        Some(n) => n,
        None => 1,
    }
}

/// The number of jobs that is asked for in decimal digits is the number of jobs.
pub proof fn law_jobs_as_asked(variable: String, parallelism: Option<usize>, n: nat)
    requires
        0 < n <= usize::MAX,
        variable@ == decimal(n),
    ensures
        job_count(Some(variable), parallelism) == n,
{
    law_decimal_is_read_back(n);
}

} // verus!
