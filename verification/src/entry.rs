//! Entries: their configuration, their files, and the overrides of their run command.

use vstd::prelude::*;
use vstd::string::*;

use crate::path::{joined, lemma_ascii_path, lemma_path_of_absolute, path_of, UnixPath, SLASH};
use crate::text::{copy_strings, texts};

verus! {

/// What the configuration of an entry says.
#[verifier::ext_equal]
pub struct EntryConfigView {
    pub name: Seq<char>,
    pub workspace: Seq<u8>,
    pub managed: bool,
    pub description: Option<Seq<char>>,
    pub autobuild: bool,
    pub autobuild_order: int,
    pub shell: Seq<u8>,
    pub depends_on: Seq<Seq<char>>,
}

/// The configuration of an entry.
#[derive(Debug, PartialEq, Eq)]
pub struct EntryConfig {
    pub name: String,
    pub workspace: UnixPath,
    pub managed: bool,
    pub description: Option<String>,
    pub autobuild: bool,
    pub autobuild_order: i32,
    pub shell: UnixPath,
    pub depends_on: Vec<String>,
}

/// The text that an optional string holds.
pub open spec fn optional_text(text: Option<String>) -> Option<Seq<char>> {
    match text {
        Some(t) => Some(t@),
        None => None,
    }
}

impl View for EntryConfig {
    type V = EntryConfigView;

    open spec fn view(&self) -> EntryConfigView {
        EntryConfigView {
            name: self.name@,
            workspace: self.workspace@,
            managed: self.managed,
            description: optional_text(self.description),
            autobuild: self.autobuild,
            autobuild_order: self.autobuild_order as int,
            shell: self.shell@,
            depends_on: texts(self.depends_on@),
        }
    }
}

impl Clone for EntryConfig {
    fn clone(&self) -> (copy: Self)
        ensures
            copy@ == self@,
    {
        let description: Option<String> = match &self.description {
            Some(text) => Some(text.clone()),
            None => None,
        };
        EntryConfig {
            name: self.name.clone(),
            workspace: self.workspace.clone(),
            managed: self.managed,
            description,
            autobuild: self.autobuild,
            autobuild_order: self.autobuild_order,
            shell: self.shell.clone(),
            depends_on: copy_strings(&self.depends_on),
        }
    }
}

/// Where the files of an entry lie.
#[verifier::ext_equal]
pub struct EntryPathsView {
    pub root: Seq<u8>,
    pub config: Seq<u8>,
    pub build_script: Seq<u8>,
    pub run_script: Seq<u8>,
}

/// The paths of an entry's files.
#[derive(Debug)]
pub struct EntryPaths {
    pub root: UnixPath,
    pub config: UnixPath,
    pub build_script: UnixPath,
    pub run_script: UnixPath,
}

impl View for EntryPaths {
    type V = EntryPathsView;

    open spec fn view(&self) -> EntryPathsView {
        EntryPathsView {
            root: self.root@,
            config: self.config@,
            build_script: self.build_script@,
            run_script: self.run_script@,
        }
    }
}

impl Clone for EntryPaths {
    fn clone(&self) -> (copy: Self)
        ensures
            copy@ == self@,
    {
        EntryPaths {
            root: self.root.clone(),
            config: self.config.clone(),
            build_script: self.build_script.clone(),
            run_script: self.run_script.clone(),
        }
    }
}

/// The paths of an entry whose files lie under `root`.
pub open spec fn paths_under(root: Seq<u8>) -> EntryPathsView {
    EntryPathsView {
        root,
        config: joined(root, path_of("entry.toml"@)),
        build_script: joined(root, path_of("build.sh"@)),
        run_script: joined(root, path_of("run.sh"@)),
    }
}

/// Where the Dockerfile of an entry with this workspace lies.
pub open spec fn dockerfile_in(workspace: Seq<u8>) -> Seq<u8> {
    joined(workspace, path_of("Dockerfile"@))
}

/// The file of an entry that `kind` names.
pub open spec fn file_of_kind(
    paths: EntryPathsView,
    kind: ScriptKind,
    config: EntryConfigView,
) -> Seq<u8> {
    match kind {
        ScriptKind::Dockerfile => dockerfile_in(config.workspace),
        ScriptKind::Build => paths.build_script,
        ScriptKind::Run => paths.run_script,
    }
}

/// Where the overrides of an entry's run command lie.
pub open spec fn overrides_under(root: Seq<u8>) -> Seq<u8> {
    joined(root, path_of("cmd-overrides"@))
}

/// The directory of the override for runs from `scope`.
pub open spec fn override_dir(root: Seq<u8>, scope: Seq<u8>) -> Seq<u8> {
    joined(overrides_under(root), path_of(hex_text(scope)))
}

/// The file that tells the scope of an override.
pub open spec fn override_config(root: Seq<u8>, scope: Seq<u8>) -> Seq<u8> {
    joined(override_dir(root, scope), path_of("scope.toml"@))
}

/// The run script of an override.
pub open spec fn override_run_script(root: Seq<u8>, scope: Seq<u8>) -> Seq<u8> {
    joined(override_dir(root, scope), path_of("run.sh"@))
}

impl EntryPaths {
    /// The paths of an entry whose files lie under `root`.
    pub fn new(root: UnixPath) -> (paths: EntryPaths)
        ensures
            paths@ == paths_under(root@),
    {
        EntryPaths {
            config: root.join("entry.toml"),
            build_script: root.join("build.sh"),
            run_script: root.join("run.sh"),
            root,
        }
    }

    /// The workspace of a managed entry.
    pub fn workspace_root(&self) -> (path: UnixPath)
        ensures
            path@ == joined(self@.root, path_of("workspace"@)),
    {
        self.root.join("workspace")
    }

    /// Where the overrides of the run command lie.
    pub fn cmd_overrides_root(&self) -> (path: UnixPath)
        ensures
            path@ == overrides_under(self@.root),
    {
        self.root.join("cmd-overrides")
    }

    /// The Dockerfile of the entry.
    pub fn dockerfile_path(&self, config: &EntryConfig) -> (path: UnixPath)
        ensures
            path@ == dockerfile_in(config@.workspace),
    {
        config.workspace.join("Dockerfile")
    }

    /// The file of the entry that `kind` names.
    pub fn by_kind(&self, kind: ScriptKind, config: &EntryConfig) -> (path: UnixPath)
        ensures
            path@ == file_of_kind(self@, kind, config@),
    {
        match kind {
            ScriptKind::Dockerfile => self.dockerfile_path(config),
            ScriptKind::Build => self.build_script.clone(),
            ScriptKind::Run => self.run_script.clone(),
        }
    }

    /// The directory of the override for runs from `scope`.
    pub fn cmd_override_dir(&self, scope: &UnixPath) -> (path: UnixPath)
        ensures
            path@ == override_dir(self@.root, scope@),
    {
        self.cmd_overrides_root().join(encode_scope_path(scope).as_str())
    }

    /// The file that tells the scope of the override for runs from `scope`.
    pub fn cmd_override_config(&self, scope: &UnixPath) -> (path: UnixPath)
        ensures
            path@ == override_config(self@.root, scope@),
    {
        self.cmd_override_dir(scope).join("scope.toml")
    }

    /// The run script of the override for runs from `scope`.
    pub fn cmd_override_run_script(&self, scope: &UnixPath) -> (path: UnixPath)
        ensures
            path@ == override_run_script(self@.root, scope@),
    {
        self.cmd_override_dir(scope).join("run.sh")
    }
}

/// A recorded entry.
#[verifier::ext_equal]
pub struct EntrySummaryView {
    pub config: EntryConfigView,
    pub paths: EntryPathsView,
}

/// An entry's configuration together with its paths.
#[derive(Debug)]
pub struct EntrySummary {
    pub config: EntryConfig,
    pub paths: EntryPaths,
}

impl View for EntrySummary {
    type V = EntrySummaryView;

    open spec fn view(&self) -> EntrySummaryView {
        EntrySummaryView { config: self.config@, paths: self.paths@ }
    }
}

impl Clone for EntrySummary {
    fn clone(&self) -> (copy: Self)
        ensures
            copy@ == self@,
    {
        EntrySummary { config: self.config.clone(), paths: self.paths.clone() }
    }
}

impl EntrySummary {
    /// An entry that has nothing particular but its name and how it takes part in autobuilds.
    pub fn for_test(name: &str, autobuild_order: i32, autobuild: bool) -> (entry: EntrySummary)
        ensures
            entry@.config.name == name@,
            entry@.config.workspace == path_of("/workspace/example"@),
            entry@.config.managed == false,
            entry@.config.description == None::<Seq<char>>,
            entry@.config.autobuild == autobuild,
            entry@.config.autobuild_order == autobuild_order,
            entry@.config.shell == path_of("/bin/sh"@),
            entry@.config.depends_on == Seq::<Seq<char>>::empty(),
            entry@.paths == paths_under(path_of("/tmp/"@ + name@)),
    {
        let mut root: String = "/tmp/".to_owned();
        root.append(name);
        let config: EntryConfig = EntryConfig {
            name: name.to_owned(),
            workspace: UnixPath::new("/workspace/example"),
            managed: false,
            description: None,
            autobuild,
            autobuild_order,
            shell: UnixPath::new("/bin/sh"),
            depends_on: Vec::new(),
        };
        assert(texts(config.depends_on@) =~= Seq::empty());
        EntrySummary { config, paths: EntryPaths::new(UnixPath::new(root.as_str())) }
    }
}

/// What a list of entries records.
pub open spec fn records(entries: Seq<EntrySummary>) -> Seq<EntrySummaryView> {
    entries.map_values(|e: EntrySummary| e@)
}

/// The files of an entry that a user edits or runs.
#[derive(Clone, Copy, Debug, PartialEq, Eq, Structural)]
pub enum ScriptKind {
    Dockerfile,
    Build,
    Run,
}

/// What a kind of file is called.
pub open spec fn kind_label(kind: ScriptKind) -> Seq<char> {
    match kind {
        ScriptKind::Dockerfile => "Dockerfile"@,
        ScriptKind::Build => "build script"@,
        ScriptKind::Run => "run script"@,
    }
}

impl ScriptKind {
    /// What the file is called.
    pub fn label(&self) -> (label: &'static str)
        ensures
            label@ == kind_label(*self),
    {
        match self {
            ScriptKind::Dockerfile => "Dockerfile",
            ScriptKind::Build => "build script",
            ScriptKind::Run => "run script",
        }
    }
}

/// What is recorded of an override: the directory that it is for.
#[derive(Debug, PartialEq, Eq)]
pub struct CmdOverrideConfig {
    pub path: UnixPath,
}

impl View for CmdOverrideConfig {
    type V = Seq<u8>;

    open spec fn view(&self) -> Seq<u8> {
        self.path@
    }
}

impl Clone for CmdOverrideConfig {
    fn clone(&self) -> (copy: Self)
        ensures
            copy@ == self@,
    {
        CmdOverrideConfig { path: self.path.clone() }
    }
}

/// The shell of an entry that records none.
pub fn default_shell() -> (shell: UnixPath)
    ensures
        shell@ == path_of("sh"@),
{
    UnixPath::new("sh")
}

/// The place in autobuilds of an entry that records none.
pub fn default_autobuild_order() -> (order: i32)
    ensures
        order == 100,
{
    100
}

/// The hexadecimal digit of a number below sixteen.
pub open spec fn hex_digit(value: int) -> char {
    if value < 10 {
        (value + 48) as char
    } else {
        (value + 87) as char
    }
}

/// Bytes as text, two hexadecimal digits for each.
pub open spec fn hex_text(bytes: Seq<u8>) -> Seq<char> {
    Seq::new(
        2 * bytes.len(),
        |i: int|
            if i % 2 == 0 {
                hex_digit(bytes[i / 2] as int / 16)
            } else {
                hex_digit(bytes[i / 2] as int % 16)
            },
    )
}

/// The name of the directory in which the override for `scope` lies.
pub fn encode_scope_path(scope: &UnixPath) -> (encoded: String)
    ensures
        encoded@ == hex_text(scope@),
{
    let mut encoded: String = String::new();
    let mut i: usize = 0;
    while i < scope.bytes.len()
        invariant
            i <= scope@.len(),
            encoded@ == hex_text(scope@).take(2 * i),
        decreases scope@.len() - i,
    {
        let byte: u8 = scope.bytes[i];
        proof {
            assert(byte >> 4 == byte / 16) by (bit_vector);
            assert(byte & 0x0f == byte % 16) by (bit_vector);
            let all = hex_text(scope@);
            assert(all[2 * i] == hex_digit(byte as int / 16));
            assert(all[2 * i + 1] == hex_digit(byte as int % 16));
            assert(all.take(2 * i).push(all[2 * i]).push(all[2 * i + 1]) =~= all.take(2 * (i + 1)));
        }
        encoded.push(nibble_to_hex(byte >> 4));
        encoded.push(nibble_to_hex(byte & 0x0f));
        i = i + 1;
    }
    assert(hex_text(scope@).take(2 * i) =~= hex_text(scope@));
    encoded
}

/// The hexadecimal digit of a number below sixteen.
pub fn nibble_to_hex(value: u8) -> (digit: char)
    requires
        value < 16,
    ensures
        digit == hex_digit(value as int),
{
    if value < 10 {
        (48 + value) as char
    } else {
        (97 + (value - 10)) as char
    }
}

/// Different scopes have different texts.
pub proof fn law_hex_text_is_injective(a: Seq<u8>, b: Seq<u8>)
    requires
        hex_text(a) == hex_text(b),
    ensures
        a == b,
{
    assert(hex_text(a).len() == 2 * a.len());
    assert(hex_text(b).len() == 2 * b.len());
    assert forall|i: int| 0 <= i < a.len() implies a[i] == b[i] by {
        assert((2 * i) / 2 == i && (2 * i) % 2 == 0);
        assert((2 * i + 1) / 2 == i && (2 * i + 1) % 2 == 1);
        let (p, q) = (a[i] as int, b[i] as int);
        assert(hex_text(a)[2 * i] == hex_digit(p / 16));
        assert(hex_text(b)[2 * i] == hex_digit(q / 16));
        assert(hex_text(a)[2 * i + 1] == hex_digit(p % 16));
        assert(hex_text(b)[2 * i + 1] == hex_digit(q % 16));
        lemma_hex_digit_is_injective(p / 16, q / 16);
        lemma_hex_digit_is_injective(p % 16, q % 16);
    }
    assert(a =~= b);
}

proof fn lemma_hex_digit_is_injective(x: int, y: int)
    requires
        0 <= x < 16,
        0 <= y < 16,
        hex_digit(x) == hex_digit(y),
    ensures
        x == y,
{
}

/// Where overrides lie does not end in a slash.
pub proof fn lemma_overrides_end(root: Seq<u8>)
    ensures
        overrides_under(root).len() > 0,
        overrides_under(root).last() != SLASH,
{
    reveal_strlit("cmd-overrides");
    let part = path_of("cmd-overrides"@);
    lemma_path_of_absolute("cmd-overrides"@);
    lemma_ascii_path("cmd-overrides"@);
    assert(part.len() == 13);
    assert(part.last() == 115);
    assert(overrides_under(root).last() == part.last());
}

} // verus!
