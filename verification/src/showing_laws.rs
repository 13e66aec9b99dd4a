//! What calls show and name: lines, messages, paths and names.

use vstd::prelude::*;
use vstd::string::*;

use crate::cli::InitSystem;
use crate::entry::{
    encode_scope_path, nibble_to_hex, EntryConfig, EntryPaths, EntrySummary, ScriptKind,
};
use crate::entry_laws::{hex_value, law_bytes_as_hexadecimal, law_entry_names};
use crate::error::{error_text, Error, ErrorView};
use crate::files::{default_build_script, default_run_script};
use crate::init::{init_script, render_init_script};
use crate::name_order::{is_text_at_most, sort_and_dedup};
use crate::names::{entries_dir, entry_paths, validate_name};
use crate::number::{
    decimal, decimal_text, digits_value, means_number, parse_usize, signed_decimal,
    signed_decimal_text, unsigned_digits,
};
use crate::path::{absolute, file_name_of, joined, path_of, same_path, shown, UnixPath};
use crate::report::{build_log_header, build_status, build_summary, entry_summary, rm_prompt};
use crate::text::{
    begins_with, contains_name, copy_strings, is_white_space, lines, lines_of, same_text,
    split_whitespace, starts_with, texts, trim, trim_start, trimmed, trimmed_start, white_space,
    words,
};
use crate::text_laws::{comes_before, law_names_are_in_dictionary_order};
use crate::wording_laws::{law_list_line, law_removal_prompt, law_status_lines};

verus! {

/// A status line tells the status, the name and the detail as they are.
pub proof fn law_status_is_shown(
    status: &str,
    name: &str,
    detail: &str,
    short: String,
    long: String,
)
    requires
        call_ensures(build_status, (status, name, None::<&str>), short),
        call_ensures(build_status, (status, name, Some(detail)), long),
    ensures
        short@ == seq!['['] + status@ + seq![']', ' '] + name@,
        long@ == short@ + seq![' '] + detail@,
{
    law_status_lines(status@, name@, detail@);
}

/// The summary shows the three numbers that it is given.
pub proof fn law_summary_is_shown(succeeded: usize, failed: usize, skipped: usize, line: String)
    requires
        call_ensures(build_summary, (succeeded, failed, skipped), line),
    ensures
        line@ == "[summary] succeeded="@ + decimal(succeeded as nat) + " failed="@ + decimal(
            failed as nat,
        ) + " skipped="@ + decimal(skipped as nat),
{
}

/// The line of an entry shows all that it is about, as it is.
pub proof fn law_entry_is_shown(entry: &EntrySummary, line: String)
    requires
        call_ensures(entry_summary, (entry,), line),
    ensures
        line@ == entry.config.name@ + "\t"@ + shown(entry.config.workspace@) + (
        if entry.config.managed {
            "\tmanaged=true"@
        } else {
            "\tmanaged=false"@
        }) + (if entry.config.autobuild {
            "\tautobuild=true"@
        } else {
            "\tautobuild=false"@
        }) + "\torder="@ + signed_decimal(entry.config.autobuild_order as int),
{
    law_list_line(entry.config@);
}

/// The question before a removal says that the workspace goes exactly if it is managed.
pub proof fn law_question_is_shown(
    paths: &EntryPaths,
    config: &EntryConfig,
    prompt: Option<String>,
)
    requires
        call_ensures(rm_prompt, (paths, config, false), prompt),
    ensures
        prompt is Some,
        ({
            let front = "Remove entry `"@ + config.name@ + "`?\n  entry: "@ + shown(paths.root@)
                + "\n  workspace: "@ + shown(config.workspace@);
            prompt->0@ == front + (if config.managed {
                " (managed, workspace will be removed with the entry)\nContinue? [y/N] "@
            } else {
                " (external, external workspace will be preserved)\nContinue? [y/N] "@
            })
        }),
{
    law_removal_prompt(paths@, config@);
}

/// A log, the scripts of a new entry and a service show what they are made for. Errors are told as
/// their messages.
pub proof fn law_texts_are_shown(
    entry: &EntrySummary,
    header: String,
    name: &str,
    build: String,
    run: String,
    system: InitSystem,
    root: &UnixPath,
    service: String,
    error: &Error,
    message: String,
)
    requires
        call_ensures(build_log_header, (entry,), header),
        call_ensures(default_build_script, (name,), build),
        call_ensures(default_run_script, (name,), run),
        call_ensures(render_init_script, (system, name, root), service),
        call_ensures(Error::message, (error,), message),
    ensures
        header@ == "# dmgr build log\n# entry="@ + entry.config.name@ + "\n# workspace="@ + shown(
            entry.config.workspace@,
        ) + "\n# script="@ + shown(entry.paths.build_script@) + "\n\n"@,
        build@ == "#!/usr/bin/env sh\nset -eu\ndocker build -t "@ + name@
            + " -f Dockerfile .\n"@,
        run@ == "#!/usr/bin/env sh\nset -eu\ndocker run --rm -it "@ + name@ + "\n"@,
        service@ == init_script(system, name@, root@),
        message@ == error_text(error@),
{
}

/// Messages without particulars are these.
pub proof fn law_plain_messages()
    ensures
        error_text(ErrorView::RootUnknown)
            == "failed to determine dmgr root, pass --root or set DMGR_ROOT"@,
        error_text(ErrorView::NameEmpty) == "entry name must not be empty"@,
        error_text(ErrorView::ImportNameInvalid)
            == "import path must end with a valid UTF-8 directory name"@,
        error_text(ErrorView::BuildTargetConflict)
            == "pass either a name or --autobuild, not both"@,
        error_text(ErrorView::BuildTargetMissing)
            == "missing build target, pass <name> or --autobuild"@,
        error_text(ErrorView::Aborted) == "aborted"@,
        error_text(ErrorView::ScopeConflict) == "pass either --cwd or --workspace, not both"@,
        error_text(ErrorView::EditorEmpty) == "editor command must not be empty"@,
{
}

/// A name is taken exactly if it is letters, digits, hyphens, underscores and dots of ASCII, one or
/// more.
pub proof fn law_which_names_are_taken(name: &str, result: Result<(), Error>)
    requires
        call_ensures(validate_name, (name,), result),
    ensures
        result is Ok <==> name@.len() > 0 && forall|i: int|
            0 <= i < name@.len() ==> {
                let c = #[trigger] name@[i];
                ('a' <= c <= 'z') || ('A' <= c <= 'Z') || ('0' <= c <= '9') || c == '-' || c == '_'
                    || c == '.'
            },
        result matches Err(e) ==> e@ == (if name@.len() == 0 {
            ErrorView::NameEmpty
        } else {
            ErrorView::NameUnsupported { name: name@ }
        }),
{
    law_entry_names(name@);
}

/// The files of an entry lie in its directory, and that among the entries under the root.
pub proof fn law_where_entries_lie(
    root: &UnixPath,
    name: &str,
    all: UnixPath,
    paths: EntryPaths,
    config: &EntryConfig,
    workspace: UnixPath,
    dockerfile: UnixPath,
    kind: ScriptKind,
    file: UnixPath,
)
    requires
        call_ensures(entries_dir, (root,), all),
        call_ensures(entry_paths, (root, name), paths),
        call_ensures(EntryPaths::workspace_root, (&paths,), workspace),
        call_ensures(EntryPaths::dockerfile_path, (&paths, config), dockerfile),
        call_ensures(EntryPaths::by_kind, (&paths, kind, config), file),
    ensures
        all@ == joined(root@, path_of("entries"@)),
        paths.root@ == joined(all@, path_of(name@)),
        paths.config@ == joined(paths.root@, path_of("entry.toml"@)),
        paths.build_script@ == joined(paths.root@, path_of("build.sh"@)),
        paths.run_script@ == joined(paths.root@, path_of("run.sh"@)),
        workspace@ == joined(paths.root@, path_of("workspace"@)),
        dockerfile@ == joined(config.workspace@, path_of("Dockerfile"@)),
        file@ == (match kind {
            ScriptKind::Dockerfile => dockerfile@,
            ScriptKind::Build => paths.build_script@,
            ScriptKind::Run => paths.run_script@,
        }),
{
}

/// A directory is written as the hexadecimal digits of its bytes.
pub proof fn law_directories_as_digits(scope: &UnixPath, encoded: String, i: int)
    requires
        call_ensures(encode_scope_path, (scope,), encoded),
        0 <= i < scope.bytes@.len(),
    ensures
        encoded@.len() == 2 * scope.bytes@.len(),
        scope.bytes@[i] == 16 * hex_value(encoded@[2 * i]) + hex_value(encoded@[2 * i + 1]),
{
    law_bytes_as_hexadecimal(scope.bytes@, i);
}

/// A digit is worth the number that it stands for.
pub proof fn law_digits_of_numbers(value: u8, digit: char)
    requires
        value < 16,
        call_ensures(nibble_to_hex, (value,), digit),
    ensures
        hex_value(digit) == value,
        ('0' <= digit <= '9') || ('a' <= digit <= 'f'),
{
}

/// What is asked of a path is answered of its bytes.
pub proof fn law_paths_answer(
    path: &UnixPath,
    other: &UnixPath,
    part: &str,
    made: UnixPath,
    is_absolute: bool,
    below: UnixPath,
    text: String,
    name: Option<Vec<u8>>,
    same: bool,
)
    requires
        call_ensures(UnixPath::new, (part,), made),
        call_ensures(UnixPath::is_absolute, (path,), is_absolute),
        call_ensures(UnixPath::join, (path, part), below),
        call_ensures(UnixPath::display, (path,), text),
        call_ensures(UnixPath::file_name, (path,), name),
        call_ensures(UnixPath::same_as, (path, other), same),
    ensures
        made.bytes@ == path_of(part@),
        is_absolute <==> path.bytes@.len() > 0 && path.bytes@[0] == 47,
        below.bytes@ == joined(path.bytes@, made.bytes@),
        text@ == shown(path.bytes@),
        name is Some <==> file_name_of(path.bytes@) is Some,
        name is Some ==> file_name_of(path.bytes@) == Some(name->0@),
        same <==> same_path(path.bytes@, other.bytes@),
        absolute(path.bytes@) != absolute(other.bytes@) ==> !same,
{
}

/// Names stand in dictionary order, and a list of names is put into that order with each name once.
pub proof fn law_names_in_order(
    a: &str,
    b: &str,
    at_most: bool,
    names: Vec<String>,
    kept: Vec<String>,
    name: Seq<char>,
)
    requires
        call_ensures(is_text_at_most, (a, b), at_most),
        call_ensures(sort_and_dedup, (names,), kept),
    ensures
        at_most <==> a@ == b@ || comes_before(a@, b@),
        texts(kept@).contains(name) <==> texts(names@).contains(name),
        forall|i: int, j: int|
            0 <= i < j < kept@.len() ==> comes_before(
                (#[trigger] kept@[i])@,
                (#[trigger] kept@[j])@,
            ),
{
    law_names_are_in_dictionary_order(a@, b@);
    let list = texts(kept@);
    assert forall|i: int, j: int| 0 <= i < j < kept@.len() implies comes_before(
        (#[trigger] kept@[i])@,
        (#[trigger] kept@[j])@,
    ) by {
        assert(list[i] == kept@[i]@ && list[j] == kept@[j]@);
        law_names_are_in_dictionary_order(list[i], list[j]);
    }
}

/// Numbers are written and read in decimal digits.
pub proof fn law_numbers_are_shown(
    n: usize,
    text: String,
    signed: i32,
    signed_text: String,
    read: &str,
    number: Option<usize>,
)
    requires
        call_ensures(decimal_text, (n,), text),
        call_ensures(signed_decimal_text, (signed,), signed_text),
        call_ensures(parse_usize, (read,), number),
    ensures
        text@ == decimal(n as nat),
        signed >= 0 ==> signed_text@ == decimal(signed as nat),
        signed < 0 ==> signed_text@ == seq!['-'] + decimal((-signed) as nat),
        number is Some <==> means_number(read@, usize::MAX as int),
        number is Some ==> number->0 == digits_value(unsigned_digits(read@)),
{
}

/// Texts are compared, parted and trimmed as they stand.
pub proof fn law_texts_are_taken_apart(
    s: &str,
    other: &str,
    c: char,
    blank: bool,
    parts: Vec<String>,
    rows: Vec<String>,
    begins: bool,
    same: bool,
    front: String,
    both: String,
)
    requires
        call_ensures(is_white_space, (c,), blank),
        call_ensures(split_whitespace, (s,), parts),
        call_ensures(lines, (s,), rows),
        call_ensures(starts_with, (s, other), begins),
        call_ensures(same_text, (s, other), same),
        call_ensures(trim_start, (s,), front),
        call_ensures(trim, (s,), both),
    ensures
        blank <==> white_space(c),
        texts(parts@) == words(s@),
        texts(rows@) == lines_of(s@),
        begins <==> begins_with(s@, other@),
        same <==> s@ == other@,
        front@ == trimmed_start(s@),
        both@ == trimmed(s@),
{
}

/// A list holds a name exactly if one of its strings is that name, and a copy holds the same strings.
pub proof fn law_lists_of_names(
    names: &Vec<String>,
    name: &String,
    found: bool,
    copy: Vec<String>,
    i: int,
)
    requires
        call_ensures(contains_name, (names, name), found),
        call_ensures(copy_strings, (names,), copy),
        0 <= i < names@.len(),
    ensures
        names@[i]@ == name@ ==> found,
        found ==> exists|j: int| 0 <= j < names@.len() && (#[trigger] names@[j])@ == name@,
        copy@.len() == names@.len(),
        copy@[i]@ == names@[i]@,
{
    let (list, again) = (texts(names@), texts(copy@));
    assert(list.len() == names@.len() && again.len() == copy@.len());
    assert(list[i] == names@[i]@ && again[i] == copy@[i]@);
    if found {
        let j = list.index_of(name@);
        assert(names@[j]@ == name@);
    }
}

} // verus!
