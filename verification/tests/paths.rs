use std::path::{Path, PathBuf};

use dmgr::entry::{
    default_autobuild_order, default_shell, encode_scope_path, nibble_to_hex, CmdOverrideConfig,
    EntryPaths, EntrySummary, ScriptKind,
};
use dmgr::names::{entries_dir, entry_paths};
use dmgr::path::UnixPath;

const PATHS: [&str; 24] = [
    "", ".", "..", "/", "//", "a", "a/", "/a", "/a/b", "/a//b/", "./a", "a/./b", "a/.", "./.",
    "a/..", "../a", "/..", "/.", "a/b/c", ".a", "a.b", "/bin/sh", "./..", "/a/./../b/.",
];

#[test]
fn joining_agrees_with_std() {
    for base in PATHS {
        for part in PATHS {
            let joined = UnixPath::new(base).join(part);
            let expected = PathBuf::from(base).join(part);
            assert_eq!(joined.display(), expected.display().to_string(), "{base:?} {part:?}");
        }
    }
}

#[test]
fn comparing_agrees_with_std() {
    for left in PATHS {
        for right in PATHS {
            assert_eq!(
                UnixPath::new(left) == UnixPath::new(right),
                Path::new(left) == Path::new(right),
                "{left:?} {right:?}"
            );
            assert_eq!(
                UnixPath::new(left).same_as(&UnixPath::new(right)),
                Path::new(left) == Path::new(right)
            );
        }
    }
}

#[test]
fn file_names_agree_with_std() {
    for path in PATHS {
        let expected = Path::new(path).file_name().map(|name| name.to_str().expect("text").to_string());
        assert_eq!(UnixPath::new(path).file_name_text(), expected, "{path:?}");
        let bytes = UnixPath::new(path).file_name();
        assert_eq!(bytes, expected.map(|name| name.into_bytes()));
        assert_eq!(UnixPath::new(path).is_absolute(), Path::new(path).is_absolute());
    }
}

#[test]
fn bytes_that_are_not_text_are_shown_with_replacements() {
    let path = UnixPath { bytes: vec![b'/', b'a', 0xff, b'b'] };
    assert_eq!(path.display(), "/a\u{fffd}b");
    assert_eq!(path.file_name(), Some(vec![b'a', 0xff, b'b']));
    assert_eq!(path.file_name_text(), None);
}

#[test]
fn text_is_shown_as_it_was_given() {
    assert_eq!(UnixPath::new("/tmp/größe 漢字").display(), "/tmp/größe 漢字");
}

#[test]
fn entry_files_lie_under_its_root() {
    let paths = EntryPaths::new(UnixPath::new("/r/entries/dev"));
    assert_eq!(paths.root.display(), "/r/entries/dev");
    assert_eq!(paths.config.display(), "/r/entries/dev/entry.toml");
    assert_eq!(paths.build_script.display(), "/r/entries/dev/build.sh");
    assert_eq!(paths.run_script.display(), "/r/entries/dev/run.sh");
    assert_eq!(paths.workspace_root().display(), "/r/entries/dev/workspace");
    assert_eq!(paths.cmd_overrides_root().display(), "/r/entries/dev/cmd-overrides");
}

#[test]
fn files_are_found_by_kind() {
    let entry = EntrySummary::for_test("dev", 100, false);
    let by = |kind| entry.paths.by_kind(kind, &entry.config).display();
    assert_eq!(by(ScriptKind::Dockerfile), "/workspace/example/Dockerfile");
    assert_eq!(by(ScriptKind::Build), "/tmp/dev/build.sh");
    assert_eq!(by(ScriptKind::Run), "/tmp/dev/run.sh");
    assert_eq!(
        entry.paths.dockerfile_path(&entry.config).display(),
        "/workspace/example/Dockerfile"
    );
    assert_eq!(ScriptKind::Dockerfile.label(), "Dockerfile");
    assert_eq!(ScriptKind::Build.label(), "build script");
    assert_eq!(ScriptKind::Run.label(), "run script");
}

#[test]
fn overrides_are_named_after_their_scope() {
    let paths = EntryPaths::new(UnixPath::new("/r"));
    let scope = UnixPath::new("/az");
    assert_eq!(encode_scope_path(&scope), "2f617a");
    assert_eq!(paths.cmd_override_dir(&scope).display(), "/r/cmd-overrides/2f617a");
    assert_eq!(paths.cmd_override_config(&scope).display(), "/r/cmd-overrides/2f617a/scope.toml");
    assert_eq!(paths.cmd_override_run_script(&scope).display(), "/r/cmd-overrides/2f617a/run.sh");
    assert_eq!(encode_scope_path(&UnixPath { bytes: vec![0, 255, 0x9a] }), "00ff9a");
}

#[test]
fn overrides_of_different_scopes_lie_apart() {
    let paths = EntryPaths::new(UnixPath::new("/r"));
    let scopes = ["", "/", "/a", "/a/", "/a/b", "/A", "."];
    for left in scopes {
        for right in scopes {
            let same = paths.cmd_override_dir(&UnixPath::new(left))
                == paths.cmd_override_dir(&UnixPath::new(right));
            assert_eq!(same, left == right, "{left:?} {right:?}");
        }
    }
}

#[test]
fn entries_of_different_names_lie_apart() {
    let root = UnixPath::new("/r");
    let names = ["a", "b", ".", "..", "a.b", "A", "..."];
    for left in names {
        for right in names {
            let same = entry_paths(&root, left).root == entry_paths(&root, right).root;
            assert_eq!(same, left == right, "{left:?} {right:?}");
        }
    }
    assert_eq!(entry_paths(&root, "dev").config.display(), "/r/entries/dev/entry.toml");
    assert_eq!(entries_dir(&root).display(), "/r/entries");
}

#[test]
fn nibbles_are_hexadecimal_digits() {
    let digits: String = (0u8..16).map(nibble_to_hex).collect();
    assert_eq!(digits, "0123456789abcdef");
}

#[test]
fn missing_settings_have_defaults() {
    assert_eq!(default_shell().display(), "sh");
    assert_eq!(default_autobuild_order(), 100);
}

#[test]
fn example_entry_is_as_described() {
    let entry = EntrySummary::for_test("dev", -3, true);
    assert_eq!(entry.config.name, "dev");
    assert_eq!(entry.config.workspace, UnixPath::new("/workspace/example"));
    assert!(!entry.config.managed);
    assert_eq!(entry.config.description, None);
    assert!(entry.config.autobuild);
    assert_eq!(entry.config.autobuild_order, -3);
    assert_eq!(entry.config.shell, UnixPath::new("/bin/sh"));
    assert!(entry.config.depends_on.is_empty());
    assert_eq!(entry.paths.root.display(), "/tmp/dev");
    assert_eq!(entry.clone().config, entry.config);
    let scope = CmdOverrideConfig { path: UnixPath::new("/a") };
    assert_eq!(scope.clone(), scope);
}
