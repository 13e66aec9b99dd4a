//! What can go wrong, and how it is told.

use vstd::prelude::*;
use vstd::string::*;

use crate::entry::{kind_label, ScriptKind};
use crate::number::{decimal, decimal_text};
use crate::path::{shown, UnixPath};

verus! {

/// A reason for which a command is refused or fails.
#[derive(Debug, PartialEq, Eq)]
pub enum Error {
    /// Neither the arguments nor the environment tell where everything is kept.
    RootUnknown,
    /// An entry name is empty.
    NameEmpty,
    /// An entry name holds a character that it may not.
    NameUnsupported { name: String },
    /// An entry of this name exists already.
    EntryExists { name: String, root: UnixPath },
    /// There is no entry at this place.
    EntryNotFound { root: UnixPath },
    /// What was to be imported is not a directory.
    ImportNotDirectory { path: UnixPath },
    /// There is nothing to import at this place.
    NothingToImport { path: UnixPath },
    /// What was to be imported has no name, or one that is not UTF-8.
    ImportNameInvalid,
    /// A build was asked for by name and by `--autobuild`.
    BuildTargetConflict,
    /// A build was asked for without saying of what.
    BuildTargetMissing,
    /// A build dependency leads back to the entry of this name.
    DependencyCycle { name: String },
    /// No entry of this name is recorded.
    UnknownEntry { name: String },
    /// Some of a build failed.
    BuildFailed { failed: usize, skipped: usize },
    /// A script ended without success.
    ScriptFailed { kind: ScriptKind, name: String, status: String },
    /// A removal was not confirmed.
    Aborted,
    /// An override was asked for by `--cwd` and by `--workspace`.
    ScopeConflict,
    /// The editor command has an open quote.
    EditorUnreadable { raw: String },
    /// The editor command has no words.
    EditorEmpty,
    /// The editor ended without success.
    EditorFailed { program: String, status: String },
}

/// What an error says.
#[verifier::ext_equal]
pub enum ErrorView {
    RootUnknown,
    NameEmpty,
    NameUnsupported { name: Seq<char> },
    EntryExists { name: Seq<char>, root: Seq<u8> },
    EntryNotFound { root: Seq<u8> },
    ImportNotDirectory { path: Seq<u8> },
    NothingToImport { path: Seq<u8> },
    ImportNameInvalid,
    BuildTargetConflict,
    BuildTargetMissing,
    DependencyCycle { name: Seq<char> },
    UnknownEntry { name: Seq<char> },
    BuildFailed { failed: nat, skipped: nat },
    ScriptFailed { kind: ScriptKind, name: Seq<char>, status: Seq<char> },
    Aborted,
    ScopeConflict,
    EditorUnreadable { raw: Seq<char> },
    EditorEmpty,
    EditorFailed { program: Seq<char>, status: Seq<char> },
}

impl View for Error {
    type V = ErrorView;

    open spec fn view(&self) -> ErrorView {
        match self {
            Error::RootUnknown => ErrorView::RootUnknown,
            Error::NameEmpty => ErrorView::NameEmpty,
            Error::NameUnsupported { name } => ErrorView::NameUnsupported { name: name@ },
            Error::EntryExists { name, root } => ErrorView::EntryExists {
                name: name@,
                root: root@,
            },
            Error::EntryNotFound { root } => ErrorView::EntryNotFound { root: root@ },
            Error::ImportNotDirectory { path } => ErrorView::ImportNotDirectory { path: path@ },
            Error::NothingToImport { path } => ErrorView::NothingToImport { path: path@ },
            Error::ImportNameInvalid => ErrorView::ImportNameInvalid,
            Error::BuildTargetConflict => ErrorView::BuildTargetConflict,
            Error::BuildTargetMissing => ErrorView::BuildTargetMissing,
            Error::DependencyCycle { name } => ErrorView::DependencyCycle { name: name@ },
            Error::UnknownEntry { name } => ErrorView::UnknownEntry { name: name@ },
            Error::BuildFailed { failed, skipped } => ErrorView::BuildFailed {
                failed: *failed as nat,
                skipped: *skipped as nat,
            },
            Error::ScriptFailed { kind, name, status } => ErrorView::ScriptFailed {
                kind: *kind,
                name: name@,
                status: status@,
            },
            Error::Aborted => ErrorView::Aborted,
            Error::ScopeConflict => ErrorView::ScopeConflict,
            Error::EditorUnreadable { raw } => ErrorView::EditorUnreadable { raw: raw@ },
            Error::EditorEmpty => ErrorView::EditorEmpty,
            Error::EditorFailed { program, status } => ErrorView::EditorFailed {
                program: program@,
                status: status@,
            },
        }
    }
}

/// The message of an error.
pub open spec fn error_text(error: ErrorView) -> Seq<char> {
    match error {
        ErrorView::RootUnknown => "failed to determine dmgr root, pass --root or set DMGR_ROOT"@,
        ErrorView::NameEmpty => "entry name must not be empty"@,
        ErrorView::NameUnsupported { name } => "entry name `"@ + name
            + "` contains unsupported characters"@,
        ErrorView::EntryExists { name, root } => "entry `"@ + name + "` already exists at "@
            + shown(root),
        ErrorView::EntryNotFound { root } => "entry not found at "@ + shown(root),
        ErrorView::ImportNotDirectory { path } => "import path must be a directory: "@ + shown(
            path,
        ),
        ErrorView::NothingToImport { path } => "no importable entries found under "@ + shown(path),
        ErrorView::ImportNameInvalid =>
            "import path must end with a valid UTF-8 directory name"@,
        ErrorView::BuildTargetConflict => "pass either a name or --autobuild, not both"@,
        ErrorView::BuildTargetMissing => "missing build target, pass <name> or --autobuild"@,
        ErrorView::DependencyCycle { name } => "detected build dependency cycle at `"@ + name
            + "`"@,
        ErrorView::UnknownEntry { name } => "entry `"@ + name + "` not found"@,
        ErrorView::BuildFailed { failed, skipped } => "build failed: "@ + decimal(failed)
            + " failed, "@ + decimal(skipped) + " skipped"@,
        ErrorView::ScriptFailed { kind, name, status } => kind_label(kind) + " for entry `"@ + name
            + "` exited with status "@ + status,
        ErrorView::Aborted => "aborted"@,
        ErrorView::ScopeConflict => "pass either --cwd or --workspace, not both"@,
        ErrorView::EditorUnreadable { raw } => "failed to parse editor command `"@ + raw
            + "`: missing closing quote"@,
        ErrorView::EditorEmpty => "editor command must not be empty"@,
        ErrorView::EditorFailed { program, status } => "editor `"@ + program
            + "` exited with status "@ + status,
    }
}

fn framed(front: &str, middle: &str, back: &str) -> (text: String)
    ensures
        text@ == front@ + middle@ + back@,
{
    let mut text: String = front.to_owned();
    text.append(middle);
    text.append(back);
    text
}

fn followed(front: &str, path: &UnixPath) -> (text: String)
    ensures
        text@ == front@ + shown(path@),
{
    let mut text: String = front.to_owned();
    let shown_path: String = path.display();
    text.append(shown_path.as_str());
    text
}

impl Error {
    /// The message of the error.
    pub fn message(&self) -> (text: String)
        ensures
            text@ == error_text(self@),
    {
        match self {
            Error::RootUnknown =>
                "failed to determine dmgr root, pass --root or set DMGR_ROOT".to_owned(),
            Error::NameEmpty => "entry name must not be empty".to_owned(),
            Error::NameUnsupported { name } => framed(
                "entry name `",
                name.as_str(),
                "` contains unsupported characters",
            ),
            Error::EntryExists { name, root } => {
                let front: String = framed("entry `", name.as_str(), "` already exists at ");
                followed(front.as_str(), root)
            },
            Error::EntryNotFound { root } => followed("entry not found at ", root),
            Error::ImportNotDirectory { path } => followed(
                "import path must be a directory: ",
                path,
            ),
            Error::NothingToImport { path } => followed("no importable entries found under ", path),
            Error::ImportNameInvalid =>
                "import path must end with a valid UTF-8 directory name".to_owned(),
            Error::BuildTargetConflict => "pass either a name or --autobuild, not both".to_owned(),
            Error::BuildTargetMissing =>
                "missing build target, pass <name> or --autobuild".to_owned(),
            Error::DependencyCycle { name } => framed(
                "detected build dependency cycle at `",
                name.as_str(),
                "`",
            ),
            Error::UnknownEntry { name } => framed("entry `", name.as_str(), "` not found"),
            Error::BuildFailed { failed, skipped } => {
                let first: String = decimal_text(*failed);
                let second: String = decimal_text(*skipped);
                let mut text: String = framed("build failed: ", first.as_str(), " failed, ");
                text.append(second.as_str());
                text.append(" skipped");
                text
            },
            Error::ScriptFailed { kind, name, status } => {
                let mut text: String = framed(kind.label(), " for entry `", name.as_str());
                text.append("` exited with status ");
                text.append(status.as_str());
                text
            },
            Error::Aborted => "aborted".to_owned(),
            Error::ScopeConflict => "pass either --cwd or --workspace, not both".to_owned(),
            Error::EditorUnreadable { raw } => framed(
                "failed to parse editor command `",
                raw.as_str(),
                "`: missing closing quote",
            ),
            Error::EditorEmpty => "editor command must not be empty".to_owned(),
            Error::EditorFailed { program, status } => {
                let mut text: String = framed(
                    "editor `",
                    program.as_str(),
                    "` exited with status ",
                );
                text.append(status.as_str());
                text
            },
        }
    }
}

} // verus!
