use dmgr::app::App;
use dmgr::build_run::{insert_ready_nodes, BuildRun};
use dmgr::entries::{
    begin_build, build_targets, handle_build, load_entries, sort_entries, BuildRequest,
};
use dmgr::entry::EntrySummary;
use dmgr::error::Error;
use dmgr::graph::{build_execution_graph, BuildNodeState};
use dmgr::path::UnixPath;
use dmgr::plan::resolve_build_plan;
use dmgr::progress::{build_jobs, finish_build, take_result, BuildTaskResult};
use dmgr::report::{build_status, format_duration};
use dmgr::script::BuildTaskOutcome;

fn entry(name: &str, depends_on: &[&str]) -> EntrySummary {
    let mut entry = EntrySummary::for_test(name, 100, false);
    entry.config.depends_on = strings(depends_on);
    entry
}

fn autobuild(name: &str, order: i32, depends_on: &[&str]) -> EntrySummary {
    let mut entry = EntrySummary::for_test(name, order, true);
    entry.config.depends_on = strings(depends_on);
    entry
}

fn strings(list: &[&str]) -> Vec<String> {
    list.iter().map(|item| item.to_string()).collect()
}

fn one(name: &str) -> BuildRequest {
    BuildRequest::One { name: name.to_string() }
}

fn begin(request: BuildRequest, entries: &Vec<EntrySummary>, max_jobs: usize) -> BuildRun {
    begin_build(&request, entries, max_jobs).expect("plan").expect("something to build")
}

fn succeeded(node: usize) -> BuildTaskResult {
    BuildTaskResult {
        node,
        seconds: 1,
        nanos: 500_000_000,
        log_path: UnixPath::new("/log"),
        outcome: BuildTaskOutcome::Succeeded,
    }
}

fn failed(node: usize) -> BuildTaskResult {
    BuildTaskResult {
        node,
        seconds: 0,
        nanos: 0,
        log_path: UnixPath::new("/log"),
        outcome: BuildTaskOutcome::Failed("exit status 7".to_string()),
    }
}

/// Builds everything, one node after the other, and gives the order.
fn built(mut run: BuildRun) -> Vec<String> {
    let mut order = Vec::new();
    let mut running = Vec::new();
    while !run.is_over() {
        running.extend(run.start_ready());
        let node = running.remove(0);
        assert!(run.is_running(node));
        order.push(run.name(node).clone());
        take_result(&mut run, &succeeded(node));
        assert!(!run.is_running(node));
    }
    assert_eq!(run.count(BuildNodeState::Succeeded), run.len());
    order
}

#[test]
fn sorts_autobuild_entries_by_order_then_name() {
    let root = UnixPath::new("/tmp/example");
    let app = App { root };
    let left = EntrySummary::for_test("beta", 20, true);
    let middle = EntrySummary::for_test("alpha", 20, true);
    let right = EntrySummary::for_test("gamma", 10, true);
    let entries = sort_entries(vec![left, middle, right]);

    let names: Vec<_> = entries.into_iter().map(|entry| entry.config.name).collect();
    assert_eq!(names, vec!["gamma", "alpha", "beta"]);
    assert_eq!(app.root, UnixPath::new("/tmp/example"));
}

#[test]
fn listing_can_leave_out_what_is_not_built_automatically() {
    let found = vec![
        EntrySummary::for_test("b", 5, true),
        EntrySummary::for_test("a", 5, false),
        EntrySummary::for_test("c", -1, true),
    ];
    let names = |entries: Vec<EntrySummary>| {
        entries.into_iter().map(|entry| entry.config.name).collect::<Vec<String>>()
    };
    assert_eq!(names(load_entries(&found, false)), vec!["c", "a", "b"]);
    assert_eq!(names(load_entries(&found, true)), vec!["c", "b"]);
}

#[test]
fn entries_of_one_rank_keep_their_order() {
    let mut first = EntrySummary::for_test("same", 1, true);
    first.config.description = Some("first".to_string());
    let mut second = EntrySummary::for_test("same", 1, true);
    second.config.description = Some("second".to_string());
    let sorted = sort_entries(vec![first, EntrySummary::for_test("a", 1, true), second]);
    assert_eq!(sorted[0].config.name, "a");
    assert_eq!(sorted[1].config.description, Some("first".to_string()));
    assert_eq!(sorted[2].config.description, Some("second".to_string()));
}

#[test]
fn build_needs_a_name_or_autobuild() {
    assert!(matches!(
        handle_build(Some("dev".to_string()), false),
        Ok(BuildRequest::One { name }) if name == "dev"
    ));
    assert!(matches!(handle_build(None, true), Ok(BuildRequest::Autobuild)));
    let both = handle_build(Some("dev".to_string()), true).expect_err("both");
    assert_eq!(both.message(), "pass either a name or --autobuild, not both");
    let neither = handle_build(None, false).expect_err("neither");
    assert_eq!(neither.message(), "missing build target, pass <name> or --autobuild");
}

#[test]
fn targets_are_what_is_asked_for() {
    let entries = vec![autobuild("a", 1, &[]), entry("b", &[]), autobuild("c", 2, &[])];
    assert_eq!(build_targets(&one("x"), &entries), vec!["x"]);
    assert_eq!(build_targets(&BuildRequest::Autobuild, &entries), vec!["a", "c"]);
    assert_eq!(build_targets(&BuildRequest::All, &entries), vec!["a", "b", "c"]);
}

#[test]
fn without_targets_nothing_is_built() {
    let entries = vec![entry("a", &[])];
    assert!(begin_build(&BuildRequest::Autobuild, &entries, 1).expect("plan").is_none());
    assert!(begin_build(&BuildRequest::All, &Vec::new(), 1).expect("plan").is_none());
}

#[test]
fn plan_has_dependencies_first_and_everything_once() {
    let entries = vec![
        entry("app", &["lib", "tool"]),
        entry("lib", &["base"]),
        entry("tool", &["base"]),
        entry("base", &[]),
        entry("other", &[]),
    ];
    let plan = resolve_build_plan(&entries, &strings(&["app", "lib"])).expect("plan");
    assert_eq!(plan, vec!["base", "lib", "tool", "app"]);
}

#[test]
fn last_entry_of_a_name_counts() {
    let entries = vec![entry("a", &["missing"]), entry("a", &[])];
    assert_eq!(resolve_build_plan(&entries, &strings(&["a"])).expect("plan"), vec!["a"]);
}

#[test]
fn cycles_are_refused() {
    let entries = vec![entry("a", &["b"]), entry("b", &["c"]), entry("c", &["b"])];
    let error = resolve_build_plan(&entries, &strings(&["a"])).expect_err("cycle");
    assert_eq!(error, Error::DependencyCycle { name: "b".to_string() });
    assert_eq!(error.message(), "detected build dependency cycle at `b`");
    let selfish = vec![entry("a", &["a"])];
    assert_eq!(
        resolve_build_plan(&selfish, &strings(&["a"])).expect_err("cycle"),
        Error::DependencyCycle { name: "a".to_string() }
    );
}

#[test]
fn unknown_entries_are_refused() {
    let entries = vec![entry("a", &["ghost"])];
    let error = resolve_build_plan(&entries, &strings(&["a"])).expect_err("unknown");
    assert_eq!(error, Error::UnknownEntry { name: "ghost".to_string() });
    assert_eq!(error.message(), "entry `ghost` not found");
    assert!(begin_build(&one("nobody"), &entries, 1).is_err());
}

#[test]
fn graph_links_go_both_ways() {
    let entries = vec![entry("b", &["a", "a"]), entry("a", &[]), entry("c", &["b", "a"])];
    let graph = build_execution_graph(&entries, &strings(&["c"])).expect("graph");
    assert_eq!(graph.order, vec!["a", "b", "c"]);
    assert_eq!(graph.nodes[1].dependencies, vec![0, 0]);
    assert_eq!(graph.nodes[0].dependents, vec![1, 1, 2]);
    assert_eq!(graph.nodes[2].dependencies, vec![1, 0]);
    assert_eq!(graph.nodes[2].remaining_dependencies, 2);
    assert_eq!(graph.nodes[0].state, BuildNodeState::Pending);
}

#[test]
fn build_recursively_builds_dependencies_first() {
    let entries = vec![entry("dev", &[]), entry("graphar-arch-dev", &["dev"])];
    let run = begin(one("graphar-arch-dev"), &entries, 4);
    assert_eq!(built(run), vec!["dev", "graphar-arch-dev"]);
}

#[test]
fn autobuild_uses_dependency_order() {
    let entries = vec![
        autobuild("graphar-arch-dev", 1, &["dev"]),
        autobuild("dev", 2, &[]),
        entry("tools", &[]),
    ];
    let run = begin(BuildRequest::Autobuild, &entries, 4);
    assert_eq!(built(run), vec!["dev", "graphar-arch-dev"]);
}

#[test]
fn build_all_builds_all_entries_in_dependency_order() {
    let entries = vec![entry("dev", &[]), entry("graphar-arch-dev", &["dev"]), entry("tools", &[])];
    let lines = built(begin(BuildRequest::All, &entries, 2));
    assert_eq!(lines.len(), 3);
    let dev_index = lines.iter().position(|line| line == "dev").expect("dev built");
    let app_index = lines.iter().position(|line| line == "graphar-arch-dev").expect("app built");
    let tools_index = lines.iter().position(|line| line == "tools").expect("tools built");
    assert!(dev_index < app_index);
    assert_ne!(tools_index, app_index);
}

#[test]
fn build_autobuild_runs_entries_in_order() {
    let entries = load_entries(
        &vec![autobuild("beta", 20, &[]), autobuild("alpha", 10, &[])],
        false,
    );
    assert_eq!(built(begin(BuildRequest::Autobuild, &entries, 1)), vec!["alpha", "beta"]);
}

#[test]
fn build_all_runs_independent_entries_in_parallel() {
    let entries = vec![entry("alpha", &[]), entry("beta", &[])];
    let mut run = begin(BuildRequest::All, &entries, 2);
    assert_eq!(run.start_ready(), vec![0, 1]);
    assert_eq!(run.count(BuildNodeState::Running), 2);
}

#[test]
fn no_more_runs_at_once_than_may() {
    let entries = vec![entry("a", &[]), entry("b", &[]), entry("c", &[])];
    let mut run = begin(BuildRequest::All, &entries, 2);
    assert_eq!(run.start_ready(), vec![0, 1]);
    assert!(run.start_ready().is_empty());
    take_result(&mut run, &succeeded(1));
    assert_eq!(run.start_ready(), vec![2]);
    take_result(&mut run, &succeeded(2));
    assert!(!run.is_over());
    take_result(&mut run, &succeeded(0));
    assert!(run.is_over());
}

#[test]
fn what_becomes_ready_is_started_in_the_order_of_the_plan() {
    let entries = vec![entry("base", &[]), entry("x", &["base"]), entry("a", &["base", "base"])];
    let mut run = begin(BuildRequest::All, &entries, 8);
    assert_eq!(run.start_ready(), vec![0]);
    take_result(&mut run, &succeeded(0));
    let started = run.start_ready();
    let names: Vec<&str> = started.iter().map(|node| run.name(*node).as_str()).collect();
    assert_eq!(names, vec!["x", "a"]);
}

#[test]
fn newly_ready_nodes_go_behind_the_others() {
    let mut ready = vec![7, 3];
    insert_ready_nodes(&mut ready, vec![9, 1, 4]);
    assert_eq!(ready, vec![7, 3, 1, 4, 9]);
}

#[test]
fn build_output_shows_status_without_raw_build_logs() {
    let entries = vec![entry("alpha", &[])];
    let mut run = begin(one("alpha"), &entries, 1);
    let started = run.start_ready();
    assert_eq!(started.len(), 1);
    assert_eq!(build_status("start", run.name(started[0]), None), "[start] alpha");
    let lines = take_result(&mut run, &succeeded(started[0]));
    assert_eq!(lines, vec!["[done] alpha 1.50s"]);
    let (summary, result) = finish_build(&run);
    assert_eq!(summary, "[summary] succeeded=1 failed=0 skipped=0");
    assert_eq!(result, Ok(()));
}

#[test]
fn build_failure_is_reported_and_dependents_are_skipped() {
    let entries = vec![
        entry("dev", &[]),
        entry("graphar-arch-dev", &["dev"]),
        entry("tools", &[]),
    ];
    let mut run = begin(BuildRequest::All, &entries, 2);
    assert_eq!(run.start_ready(), vec![0, 2]);
    let lines = take_result(&mut run, &failed(0));
    assert_eq!(
        lines,
        vec![
            "[fail] dev exit status 7; log=/log",
            "[skip] graphar-arch-dev blocked by `dev`",
        ]
    );
    assert!(run.start_ready().is_empty());
    assert!(!run.is_over());
    take_result(&mut run, &succeeded(2));
    assert!(run.is_over());
    let (summary, result) = finish_build(&run);
    assert_eq!(summary, "[summary] succeeded=1 failed=1 skipped=1");
    let error = result.expect_err("failed build");
    assert_eq!(error, Error::BuildFailed { failed: 1, skipped: 1 });
    assert_eq!(error.message(), "build failed: 1 failed, 1 skipped");
}

#[test]
fn failure_skips_what_depends_on_it_through_others() {
    let entries = vec![
        entry("dev", &[]),
        entry("app", &["dev"]),
        entry("tools", &[]),
        entry("top", &["tools", "app"]),
    ];
    let mut run = begin(BuildRequest::All, &entries, 2);
    assert_eq!(run.start_ready(), vec![0, 2]);
    let lines = take_result(&mut run, &failed(0));
    assert_eq!(
        lines,
        vec![
            "[fail] dev exit status 7; log=/log",
            "[skip] app blocked by `dev`",
            "[skip] top blocked by `dev`",
        ]
    );
    take_result(&mut run, &succeeded(2));
    assert!(run.is_over());
    let (summary, _) = finish_build(&run);
    assert_eq!(summary, "[summary] succeeded=1 failed=1 skipped=2");
}

#[test]
fn failure_spares_what_does_not_need_it() {
    let entries = vec![entry("a", &[]), entry("b", &[]), entry("c", &["b"]), entry("d", &["a"])];
    let mut run = begin(BuildRequest::All, &entries, 1);
    assert_eq!(run.start_ready(), vec![0]);
    let lines = take_result(&mut run, &failed(0));
    assert_eq!(lines.len(), 2);
    assert_eq!(run.start_ready(), vec![1]);
    take_result(&mut run, &succeeded(1));
    assert_eq!(run.start_ready(), vec![2]);
    take_result(&mut run, &succeeded(2));
    assert!(run.is_over());
    assert_eq!(run.count(BuildNodeState::Succeeded), 2);
    assert_eq!(run.count(BuildNodeState::Failed), 1);
    assert_eq!(run.count(BuildNodeState::Skipped), 1);
}

#[test]
fn nodes_carry_their_entries() {
    let entries = vec![entry("dev", &[]), entry("app", &["dev"])];
    let run = begin(one("app"), &entries, 1);
    assert_eq!(run.len(), 2);
    assert_eq!(run.entry(1).config, entries[1].config);
    assert!(!run.is_running(0));
    assert!(!run.is_running(9));
}

#[test]
fn jobs_follow_the_variable_then_the_machine() {
    let jobs = |variable: Option<&str>, machine| build_jobs(variable.map(str::to_string), machine);
    assert_eq!(jobs(Some("3"), Some(8)), 3);
    assert_eq!(jobs(Some("+4"), None), 4);
    assert_eq!(jobs(Some("0"), Some(8)), 8);
    assert_eq!(jobs(Some("many"), Some(8)), 8);
    assert_eq!(jobs(Some("-1"), None), 1);
    assert_eq!(jobs(None, Some(2)), 2);
    assert_eq!(jobs(None, None), 1);
}

#[test]
fn durations_are_shown_with_two_decimals() {
    assert_eq!(format_duration(1, 234_567_890), "1.23s");
    assert_eq!(format_duration(0, 1_500_000), "1.50ms");
    assert_eq!(format_duration(75, 0), "75.00s");
}
