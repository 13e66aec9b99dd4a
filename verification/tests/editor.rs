use dmgr::app::App;
use dmgr::editor::Editor;
use dmgr::entry::ScriptKind;
use dmgr::error::Error;
use dmgr::files::FileStep;
use dmgr::path::UnixPath;

fn text(value: &str) -> Option<String> {
    Some(value.to_string())
}

#[test]
fn parses_editor_with_arguments() {
    let editor = Editor::from_raw("code --wait").expect("parse editor");
    assert_eq!(editor.program, "code");
    assert_eq!(editor.args, vec!["--wait"]);
}

#[test]
fn quotes_and_escapes_are_understood() {
    let editor = Editor::from_raw("'my editor' -c \"a b\" d\\ e # note").expect("parse editor");
    assert_eq!(editor.program, "my editor");
    assert_eq!(editor.args, vec!["-c", "a b", "d e"]);
}

#[test]
fn plain_commands_are_split_at_blanks() {
    let editor = Editor::from_raw("  vim\t-n\n  -R ").expect("parse editor");
    assert_eq!(editor.program, "vim");
    assert_eq!(editor.args, vec!["-n", "-R"]);
}

#[test]
fn open_quote_is_refused() {
    let error = Editor::from_raw("vim 'x").expect_err("open quote");
    assert_eq!(error, Error::EditorUnreadable { raw: "vim 'x".to_string() });
    assert_eq!(
        error.message(),
        "failed to parse editor command `vim 'x`: missing closing quote"
    );
}

#[test]
fn command_without_words_is_refused() {
    assert_eq!(Editor::from_raw("# nothing").expect_err("no words"), Error::EditorEmpty);
    let error = Editor::from_raw("").expect_err("no words");
    assert_eq!(error.message(), "editor command must not be empty");
}

#[test]
fn words_make_the_editor() {
    let words = vec!["a".to_string(), "b".to_string(), "c".to_string()];
    let editor = Editor::from_words("a b c", Some(words)).expect("words");
    assert_eq!(editor.program, "a");
    assert_eq!(editor.args, vec!["b", "c"]);
    assert_eq!(Editor::from_words("x", Some(Vec::new())).expect_err("empty"), Error::EditorEmpty);
    assert_eq!(
        Editor::from_words("x", None).expect_err("unreadable"),
        Error::EditorUnreadable { raw: "x".to_string() }
    );
}

#[test]
fn visual_goes_before_editor() {
    let program = |visual: Option<String>, editor: Option<String>| {
        Editor::from_env(visual, editor).expect("editor").program
    };
    assert_eq!(program(text("code"), text("nano")), "code");
    assert_eq!(program(None, text("nano")), "nano");
    assert_eq!(program(text(" \t"), text("nano")), "nano");
    assert_eq!(program(text(""), text("  ")), "vi");
    assert_eq!(program(None, None), "vi");
}

#[test]
fn edit_file_uses_editor_from_environment() {
    let editor = Editor::from_env(None, text("/tmp/editor.sh")).expect("editor");
    assert_eq!(editor.program, "/tmp/editor.sh");
    assert!(editor.args.is_empty());

    let app = App { root: UnixPath::new("/tmp/dmgr") };
    let (steps, _) = app
        .create_entry("dev", None, None, false, 100, None, false)
        .expect("create entry");
    let FileStep::WriteConfig { config, .. } = &steps[2] else {
        panic!("no configuration");
    };
    let target = app.entry_paths("dev").by_kind(ScriptKind::Dockerfile, config);
    assert_eq!(
        target.display(),
        app.root.join("entries/dev/workspace/Dockerfile").display()
    );
}

#[test]
fn editor_that_fails_is_told() {
    let editor = Editor::from_raw("vim").expect("editor");
    assert_eq!(editor.finished(true, "exit status: 0"), Ok(()));
    let error = editor.finished(false, "exit status: 1").expect_err("failure");
    assert_eq!(error.message(), "editor `vim` exited with status exit status: 1");
}
