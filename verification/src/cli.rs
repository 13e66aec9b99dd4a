//! The commands of the program and their arguments.

use vstd::prelude::*;

use crate::path::UnixPath;

verus! {

/// A call of the program.
#[derive(Debug)]
pub struct Cli {
    /// Where everything is kept, if it is not the usual place.
    pub root: Option<UnixPath>,
    pub command: Commands,
}

/// What the program is asked to do.
#[derive(Debug)]
pub enum Commands {
    Entry { command: EntryCommands },
    Import { path: UnixPath },
    File { command: FileCommands },
    Script { command: ScriptCommands },
    Cmd { command: CmdCommands },
    Build { name: Option<String>, autobuild: bool },
    BuildAll,
    Rm { name: String, yes: bool },
    Run { name: String },
    Path { name: String, kind: PathKind },
    Init { system: InitSystem, output: Option<UnixPath>, dmgr_bin: String },
}

/// Commands on entries.
#[derive(Debug)]
pub enum EntryCommands {
    Create {
        name: String,
        workspace: Option<UnixPath>,
        description: Option<String>,
        autobuild: bool,
        autobuild_order: i32,
        shell: Option<UnixPath>,
    },
    List { autobuild: bool },
}

/// Commands on an entry's Dockerfile.
#[derive(Debug)]
pub enum FileCommands {
    Edit { name: String },
}

/// Commands on an entry's build script.
#[derive(Debug)]
pub enum ScriptCommands {
    Edit { name: String },
}

/// Commands on an entry's run command.
#[derive(Debug)]
pub enum CmdCommands {
    Edit { name: String, cwd: bool, workspace: Option<UnixPath> },
}

/// The paths of an entry that can be asked for.
#[derive(Clone, Copy, Debug, PartialEq, Eq, Structural)]
pub enum PathKind {
    Entry,
    Config,
    Workspace,
    File,
    Build,
    Run,
}

/// The init systems for which a service can be rendered.
#[derive(Clone, Copy, Debug, PartialEq, Eq, Structural)]
pub enum InitSystem {
    Systemd,
    Openrc,
}

} // verus!
