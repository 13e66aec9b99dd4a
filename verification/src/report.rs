//! What is printed and what is asked.

use vstd::prelude::*;
use vstd::string::*;

use crate::entry::{
    EntryConfig, EntryConfigView, EntryPaths, EntryPathsView, EntrySummary, EntrySummaryView,
};
use crate::error::{Error, ErrorView};
use crate::number::{decimal, decimal_text, signed_decimal, signed_decimal_text};
use crate::path::shown;
use crate::text::{same_text, trim, trimmed};

verus! {

/// The text that the debug format of `std::time::Duration` gives with two decimal places.
pub uninterp spec fn duration_text(seconds: u64, nanos: u32) -> Seq<char>;

/// Formatting a `std::time::Duration` of std with `{:.2?}` gives a text that depends on the
/// duration alone; which one is not stated.
#[verifier::external_body]
fn debug_duration(seconds: u64, nanos: u32) -> (text: String)
    requires
        nanos < 1_000_000_000,
    ensures
        text@ == duration_text(seconds, nanos),
{
    format!("{:.2?}", std::time::Duration::new(seconds, nanos))
}

/// How long a build took, as it is shown.
pub fn format_duration(seconds: u64, nanos: u32) -> (text: String)
    requires
        nanos < 1_000_000_000,
    ensures
        text@ == duration_text(seconds, nanos),
{
    debug_duration(seconds, nanos)
}

/// A line that tells how a build goes on.
pub open spec fn status_line(
    status: Seq<char>,
    name: Seq<char>,
    detail: Option<Seq<char>>,
) -> Seq<char> {
    let line = "["@ + status + "] "@ + name;
    match detail {
        Some(text) => line + " "@ + text,
        None => line,
    }
}

/// A line that tells how a build goes on.
pub fn build_status(status: &str, name: &str, detail: Option<&str>) -> (line: String)
    ensures
        line@ == status_line(
            status@,
            name@,
            match detail {
                Some(text) => Some(text@),
                None => None,
            },
        ),
{
    let mut line: String = "[".to_owned();
    line.append(status);
    line.append("] ");
    line.append(name);
    match detail {
        Some(text) => {
            line.append(" ");
            line.append(text);
        },
        None => {},
    }
    line
}

/// The line that tells how a build ended.
pub open spec fn summary_line(succeeded: nat, failed: nat, skipped: nat) -> Seq<char> {
    "[summary] succeeded="@ + decimal(succeeded) + " failed="@ + decimal(failed) + " skipped="@
        + decimal(skipped)
}

/// The line that tells how a build ended.
pub fn build_summary(succeeded: usize, failed: usize, skipped: usize) -> (line: String)
    ensures
        line@ == summary_line(succeeded as nat, failed as nat, skipped as nat),
{
    let (first, second, third): (String, String, String) = (
        decimal_text(succeeded),
        decimal_text(failed),
        decimal_text(skipped),
    );
    let mut line: String = "[summary] succeeded=".to_owned();
    line.append(first.as_str());
    line.append(" failed=");
    line.append(second.as_str());
    line.append(" skipped=");
    line.append(third.as_str());
    line
}

/// `true` or `false`.
pub open spec fn truth_text(value: bool) -> Seq<char> {
    if value {
        "true"@
    } else {
        "false"@
    }
}

fn truth(value: bool) -> (text: &'static str)
    ensures
        text@ == truth_text(value),
{
    if value {
        "true"
    } else {
        "false"
    }
}

/// The line of an entry in the list of entries.
pub open spec fn entry_line(config: EntryConfigView) -> Seq<char> {
    config.name + "\t"@ + shown(config.workspace) + "\tmanaged="@ + truth_text(config.managed)
        + "\tautobuild="@ + truth_text(config.autobuild) + "\torder="@ + signed_decimal(
        config.autobuild_order,
    )
}

/// The line of an entry in the list of entries.
pub fn entry_summary(entry: &EntrySummary) -> (line: String)
    ensures
        line@ == entry_line(entry@.config),
{
    let config: &EntryConfig = &entry.config;
    let workspace: String = config.workspace.display();
    let order: String = signed_decimal_text(config.autobuild_order);
    let mut line: String = config.name.clone();
    line.append("\t");
    line.append(workspace.as_str());
    line.append("\tmanaged=");
    line.append(truth(config.managed));
    line.append("\tautobuild=");
    line.append(truth(config.autobuild));
    line.append("\torder=");
    line.append(order.as_str());
    line
}

/// The line that tells which run command was chosen.
pub fn cmd_scope(label: &str) -> (line: String)
    ensures
        line@ == "using cmd scope: "@ + label@,
{
    let mut line: String = "using cmd scope: ".to_owned();
    line.append(label);
    line
}

/// What is asked before an entry is removed.
pub open spec fn removal_prompt(paths: EntryPathsView, config: EntryConfigView) -> Seq<char> {
    "Remove entry `"@ + config.name + "`?\n  entry: "@ + shown(paths.root) + "\n  workspace: "@
        + shown(config.workspace) + (if config.managed {
        " (managed, workspace will be removed with the entry)\n"@
    } else {
        " (external, external workspace will be preserved)\n"@
    }) + "Continue? [y/N] "@
}

/// What is asked before an entry is removed. Nothing is, if `yes` says it already.
pub fn rm_prompt(paths: &EntryPaths, config: &EntryConfig, yes: bool) -> (prompt: Option<String>)
    ensures
        match prompt {
            Some(text) => !yes && text@ == removal_prompt(paths@, config@),
            None => yes,
        },
{
    if yes {
        return None;
    }
    let root: String = paths.root.display();
    let workspace: String = config.workspace.display();
    let mut text: String = "Remove entry `".to_owned();
    text.append(config.name.as_str());
    text.append("`?\n  entry: ");
    text.append(root.as_str());
    text.append("\n  workspace: ");
    text.append(workspace.as_str());
    if config.managed {
        text.append(" (managed, workspace will be removed with the entry)\n");
    } else {
        text.append(" (external, external workspace will be preserved)\n");
    }
    text.append("Continue? [y/N] ");
    Some(text)
}

/// An answer that confirms, whatever white space stands around it.
pub open spec fn confirms(answer: Seq<char>) -> bool {
    let word = trimmed(answer);
    word == "y"@ || word == "Y"@ || word == "yes"@ || word == "YES"@ || word == "Yes"@
}

/// Goes on with a removal only if the answer confirms it.
pub fn confirm_rm(answer: &str) -> (result: Result<(), Error>)
    ensures
        match result {
            Ok(()) => confirms(answer@),
            Err(e) => !confirms(answer@) && e@ == ErrorView::Aborted,
        },
{
    let word: String = trim(answer);
    let word: &str = word.as_str();
    if same_text(word, "y") || same_text(word, "Y") || same_text(word, "yes") || same_text(
        word,
        "YES",
    ) || same_text(word, "Yes") {
        Ok(())
    } else {
        Err(Error::Aborted)
    }
}

/// What the log of a build begins with.
pub open spec fn log_header(entry: EntrySummaryView) -> Seq<char> {
    "# dmgr build log\n# entry="@ + entry.config.name + "\n# workspace="@ + shown(
        entry.config.workspace,
    ) + "\n# script="@ + shown(entry.paths.build_script) + "\n\n"@
}

/// What the log of a build begins with.
pub fn build_log_header(entry: &EntrySummary) -> (text: String)
    ensures
        text@ == log_header(entry@),
{
    let workspace: String = entry.config.workspace.display();
    let script: String = entry.paths.build_script.display();
    let mut text: String = "# dmgr build log\n# entry=".to_owned();
    text.append(entry.config.name.as_str());
    text.append("\n# workspace=");
    text.append(workspace.as_str());
    text.append("\n# script=");
    text.append(script.as_str());
    text.append("\n\n");
    text
}

} // verus!
