//! What is done to files, and what new files hold.

use vstd::prelude::*;
use vstd::string::*;

use crate::entry::{CmdOverrideConfig, EntryConfig, EntryConfigView};
use crate::path::UnixPath;

verus! {

/// One change to the file system.
#[derive(Debug, PartialEq, Eq)]
pub enum FileStep {
    /// Create the directory of an entry, with everything above it.
    CreateEntryDir { path: UnixPath },
    /// Create a workspace, with everything above it.
    CreateWorkspace { path: UnixPath },
    /// Create the directory in which a file lies, with everything above it.
    CreateParent { path: UnixPath },
    /// Write the configuration of an entry.
    WriteConfig { path: UnixPath, config: EntryConfig },
    /// Write what an override is for.
    WriteScope { path: UnixPath, config: CmdOverrideConfig },
    /// Write a text.
    Write { path: UnixPath, text: String },
    /// Write a text, unless there is something already.
    WriteIfMissing { path: UnixPath, text: String },
    /// Copy a file as it is.
    Copy { from: UnixPath, to: UnixPath },
    /// Write to one file the text of another.
    CopyText { from: UnixPath, to: UnixPath },
    /// Remove the directory of an entry, with everything in it.
    RemoveEntryDir { path: UnixPath },
}

/// What a change to the file system is.
#[verifier::ext_equal]
pub enum FileStepView {
    CreateEntryDir { path: Seq<u8> },
    CreateWorkspace { path: Seq<u8> },
    CreateParent { path: Seq<u8> },
    WriteConfig { path: Seq<u8>, config: EntryConfigView },
    WriteScope { path: Seq<u8>, scope: Seq<u8> },
    Write { path: Seq<u8>, text: Seq<char> },
    WriteIfMissing { path: Seq<u8>, text: Seq<char> },
    Copy { from: Seq<u8>, to: Seq<u8> },
    CopyText { from: Seq<u8>, to: Seq<u8> },
    RemoveEntryDir { path: Seq<u8> },
}

impl View for FileStep {
    type V = FileStepView;

    open spec fn view(&self) -> FileStepView {
        match self {
            FileStep::CreateEntryDir { path } => FileStepView::CreateEntryDir { path: path@ },
            FileStep::CreateWorkspace { path } => FileStepView::CreateWorkspace { path: path@ },
            FileStep::CreateParent { path } => FileStepView::CreateParent { path: path@ },
            FileStep::WriteConfig { path, config } => FileStepView::WriteConfig {
                path: path@,
                config: config@,
            },
            FileStep::WriteScope { path, config } => FileStepView::WriteScope {
                path: path@,
                scope: config@,
            },
            FileStep::Write { path, text } => FileStepView::Write { path: path@, text: text@ },
            FileStep::WriteIfMissing { path, text } => FileStepView::WriteIfMissing {
                path: path@,
                text: text@,
            },
            FileStep::Copy { from, to } => FileStepView::Copy { from: from@, to: to@ },
            FileStep::CopyText { from, to } => FileStepView::CopyText { from: from@, to: to@ },
            FileStep::RemoveEntryDir { path } => FileStepView::RemoveEntryDir { path: path@ },
        }
    }
}

/// What a list of changes is.
pub open spec fn steps_of(steps: Seq<FileStep>) -> Seq<FileStepView> {
    steps.map_values(|step: FileStep| step@)
}

/// The build script of a new entry.
pub open spec fn build_script_text(name: Seq<char>) -> Seq<char> {
    "#!/usr/bin/env sh\nset -eu\ndocker build -t "@ + name + " -f Dockerfile .\n"@
}

/// The run script of a new entry.
pub open spec fn run_script_text(name: Seq<char>) -> Seq<char> {
    "#!/usr/bin/env sh\nset -eu\ndocker run --rm -it "@ + name + "\n"@
}

/// The Dockerfile of a new entry.
pub fn default_dockerfile() -> (text: String)
    ensures
        text@ == "FROM alpine:latest\n"@,
{
    "FROM alpine:latest\n".to_owned()
}

/// The build script of a new entry.
pub fn default_build_script(name: &str) -> (text: String)
    ensures
        text@ == build_script_text(name@),
{
    let mut text: String = "#!/usr/bin/env sh\nset -eu\ndocker build -t ".to_owned();
    text.append(name);
    text.append(" -f Dockerfile .\n");
    text
}

/// The run script of a new entry.
pub fn default_run_script(name: &str) -> (text: String)
    ensures
        text@ == run_script_text(name@),
{
    let mut text: String = "#!/usr/bin/env sh\nset -eu\ndocker run --rm -it ".to_owned();
    text.append(name);
    text.append("\n");
    text
}

/// The shell of a new entry.
pub fn default_shell_path() -> (shell: UnixPath)
    ensures
        shell@ == crate::path::path_of("sh"@),
{
    UnixPath::new("sh")
}

} // verus!
