use dmgr::dockerfile::{infer_import_dependencies, parse_dockerfile_from_images, parse_from_image};
use dmgr::entry::{EntryConfig, EntrySummary};
use dmgr::error::Error;
use dmgr::files::FileStep;
use dmgr::import::{
    check_import_sources, discover_import_sources, import_entry, import_source_from_workspace,
    populate_import_dependencies, ImportProbe, ImportSource, WorkspaceProbe,
};
use dmgr::path::UnixPath;

fn place(path: &str, has_dockerfile: bool, has_build_script: bool) -> WorkspaceProbe {
    WorkspaceProbe { path: UnixPath::new(path), has_dockerfile, has_build_script }
}

fn directory(itself: WorkspaceProbe, children: Vec<WorkspaceProbe>) -> ImportProbe {
    ImportProbe { is_dir: true, itself, children }
}

fn strings(list: &[&str]) -> Vec<String> {
    list.iter().map(|item| item.to_string()).collect()
}

fn names(sources: &[ImportSource]) -> Vec<String> {
    sources.iter().map(|source| source.name.clone()).collect()
}

#[test]
fn from_lines_name_images() {
    assert_eq!(parse_from_image("FROM dev"), Some("dev".to_string()));
    assert_eq!(
        parse_from_image("FROM --platform=linux/amd64 rust:latest AS build"),
        Some("rust:latest".to_string())
    );
    assert_eq!(parse_from_image("FROM"), None);
    assert_eq!(parse_from_image("FROM --platform=x"), None);
    assert_eq!(parse_from_image("RUN x"), None);
    assert_eq!(parse_from_image(""), None);
}

#[test]
fn only_from_lines_count() {
    let content = "# FROM no\nFROM a\n  FROM b AS x\r\nfrom c\nFROM\td\nRUN FROM e\nFROMf\nFROM --x g";
    assert_eq!(parse_dockerfile_from_images(content), vec!["a", "b", "g"]);
    assert!(parse_dockerfile_from_images("").is_empty());
}

#[test]
fn dependencies_are_known_entries_in_order() {
    let content = "FROM z\nFROM a\nFROM me\nFROM unknown\nFROM z\n";
    let found = infer_import_dependencies(
        content,
        &"me".to_string(),
        &strings(&["z", "me"]),
        &strings(&["a"]),
    );
    assert_eq!(found, vec!["a", "z"]);
}

#[test]
fn import_single_directory_creates_external_entry() {
    let probe = directory(place("/src/dockerfiles/dev", true, true), Vec::new());
    let mut sources = discover_import_sources(&probe).expect("sources");
    assert_eq!(names(&sources), vec!["dev"]);
    let source = sources.remove(0);
    assert_eq!(source.workspace, UnixPath::new("/src/dockerfiles/dev"));
    let root = UnixPath::new("/r");
    let (steps, entry_root) = import_entry(&root, source);
    assert_eq!(entry_root, UnixPath::new("/r/entries/dev"));
    assert_eq!(
        steps,
        vec![
            FileStep::CreateEntryDir { path: UnixPath::new("/r/entries/dev") },
            FileStep::WriteConfig {
                path: UnixPath::new("/r/entries/dev/entry.toml"),
                config: EntryConfig {
                    name: "dev".to_string(),
                    workspace: UnixPath::new("/src/dockerfiles/dev"),
                    managed: false,
                    description: None,
                    autobuild: false,
                    autobuild_order: 100,
                    shell: UnixPath::new("sh"),
                    depends_on: Vec::new(),
                },
            },
            FileStep::Copy {
                from: UnixPath::new("/src/dockerfiles/dev/build.sh"),
                to: UnixPath::new("/r/entries/dev/build.sh"),
            },
            FileStep::Write {
                path: UnixPath::new("/r/entries/dev/run.sh"),
                text: "#!/usr/bin/env sh\nset -eu\ndocker run --rm -it dev\n".to_string(),
            },
        ]
    );
}

#[test]
fn import_parent_directory_scans_importable_children() {
    let probe = directory(
        place("/src", false, true),
        vec![
            place("/src/beta", true, false),
            place("/src/notes", false, true),
            place("/src/alpha", true, true),
        ],
    );
    let sources = discover_import_sources(&probe).expect("sources");
    assert_eq!(names(&sources), vec!["alpha", "beta"]);
    assert_eq!(sources[0].build_script, Some(UnixPath::new("/src/alpha/build.sh")));
    assert_eq!(sources[1].build_script, None);
    let root = UnixPath::new("/r");
    for source in sources {
        let name = source.name.clone();
        let (steps, place) = import_entry(&root, source);
        assert_eq!(place.display(), format!("/r/entries/{name}"));
        if name == "beta" {
            assert_eq!(
                steps[2],
                FileStep::Write {
                    path: UnixPath::new("/r/entries/beta/build.sh"),
                    text: "#!/usr/bin/env sh\nset -eu\ndocker build -t beta -f Dockerfile .\n"
                        .to_string(),
                }
            );
        }
    }
}

#[test]
fn import_infers_dependencies_from_dockerfile_from() {
    let probe = directory(
        place("/src", false, false),
        vec![place("/src/graphar-arch-dev", true, false), place("/src/dev", true, false)],
    );
    let mut sources = discover_import_sources(&probe).expect("sources");
    assert_eq!(names(&sources), vec!["dev", "graphar-arch-dev"]);
    let dockerfiles =
        strings(&["FROM alpine:latest\n", "FROM dev\nRUN echo app\nFROM recorded\n"]);
    let recorded = vec![EntrySummary::for_test("recorded", 1, false)];
    populate_import_dependencies(&mut sources, &dockerfiles, &recorded);
    assert!(sources[0].depends_on.is_empty());
    assert_eq!(sources[1].depends_on, vec!["dev", "recorded"]);
    assert_eq!(names(&sources), vec!["dev", "graphar-arch-dev"]);
}

#[test]
fn only_directories_are_imported() {
    let probe =
        ImportProbe { is_dir: false, itself: place("/a/file", true, true), children: Vec::new() };
    let error = discover_import_sources(&probe).expect_err("file");
    assert_eq!(error.message(), "import path must be a directory: /a/file");
}

#[test]
fn something_must_be_importable() {
    let probe = directory(place("/src", false, false), vec![place("/src/notes", false, false)]);
    let error = discover_import_sources(&probe).expect_err("nothing");
    assert_eq!(error.message(), "no importable entries found under /src");
}

#[test]
fn importable_directories_need_names() {
    let error = import_source_from_workspace(&place("/", true, false)).expect_err("no name");
    assert_eq!(error, Error::ImportNameInvalid);
    assert_eq!(error.message(), "import path must end with a valid UTF-8 directory name");
    let odd = WorkspaceProbe {
        path: UnixPath { bytes: vec![b'/', 0xff] },
        has_dockerfile: true,
        has_build_script: false,
    };
    let probe = directory(place("/", false, false), vec![place("/a", true, false), odd]);
    assert_eq!(discover_import_sources(&probe).expect_err("odd name"), Error::ImportNameInvalid);
    let whole = directory(place("/", true, false), Vec::new());
    assert_eq!(discover_import_sources(&whole).expect_err("no name"), Error::ImportNameInvalid);
}

#[test]
fn first_name_that_cannot_be_imported_is_told() {
    let root = UnixPath::new("/r");
    let probe = directory(
        place("/src", false, false),
        vec![place("/src/a", true, false), place("/src/b b", true, false), place("/src/c", true, false)],
    );
    let sources = discover_import_sources(&probe).expect("sources");
    let error =
        check_import_sources(&root, &sources, &vec![false, false, true]).expect_err("bad name");
    assert_eq!(error, Error::NameUnsupported { name: "b b".to_string() });
    let error =
        check_import_sources(&root, &sources, &vec![true, false, true]).expect_err("taken");
    assert_eq!(error.message(), "entry `a` already exists at /r/entries/a");
    let good = discover_import_sources(&directory(place("/src/a", true, false), Vec::new()));
    assert_eq!(check_import_sources(&root, &good.expect("source"), &vec![false]), Ok(()));
}
