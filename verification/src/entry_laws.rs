//! Where the files of entries lie, which names entries may have, and which paths are the same.

use vstd::prelude::*;
use vstd::string::*;
use vstd::utf8::*;

use crate::entry::{
    dockerfile_in, hex_digit, hex_text, lemma_overrides_end, override_config, override_dir,
    override_run_script, overrides_under, paths_under,
};
use crate::error::ErrorView;
use crate::import::{
    discovery_error, import_name, import_places, lacks_name, source_at, ImportProbe,
    WorkspaceProbeView,
};
use crate::names::{
    entries_under, entry_root, lemma_entries_end, name_char, name_error, new_entry_error,
    valid_name,
};
use crate::path::{
    absolute, components, file_name_of, joined, lemma_path_of_absolute, parent_dir, path_of,
    same_path, segments, this_dir, SLASH,
};
use crate::path_laws::{
    lemma_child_components, lemma_hex_chars, lemma_no_slash, lemma_one_piece, lemma_pieces_apart,
};
use crate::sort::views;

verus! {

/// A slash before a text is a slash before its path.
proof fn lemma_slash_before(text: Seq<char>)
    ensures
        path_of(seq!['/'] + text) == seq![47u8] + path_of(text),
{
    let whole = seq!['/'] + text;
    assert(whole.drop_first() =~= text);
    assert(leading_byte_width_1(47) == 47) by (bit_vector);
    assert(encode_scalar('/' as u32) =~= seq![47u8]);
    assert(path_of(whole) == encode_scalar(whole[0] as u32) + path_of(text));
}

/// Texts that follow each other make paths that do.
proof fn lemma_path_of_add(a: Seq<char>, b: Seq<char>)
    ensures
        path_of(a + b) == path_of(a) + path_of(b),
    decreases a.len(),
{
    if a.len() == 0 {
        assert(a + b =~= b);
        assert(path_of(a) + path_of(b) =~= path_of(b));
    } else {
        assert((a + b).drop_first() =~= a.drop_first() + b);
        lemma_path_of_add(a.drop_first(), b);
        assert(path_of(a + b) =~= path_of(a) + path_of(b));
    }
}

/// An absolute part stands alone. Any other follows what it is joined to, behind one slash unless
/// there is one already or nothing to follow.
pub proof fn law_joining(base: Seq<u8>, part: Seq<u8>)
    ensures
        part.len() > 0 && part[0] == 47 ==> joined(base, part) == part,
        part.len() == 0 || part[0] != 47 ==> {
            &&& base.len() == 0 ==> joined(base, part) == part
            &&& base.len() > 0 && base.last() == 47 ==> joined(base, part) == base + part
            &&& base.len() > 0 && base.last() != 47 ==> joined(base, part) == base + seq![47u8]
                + part
        },
{
    assert(base.len() == 0 ==> base + part =~= part);
    assert(base.push(SLASH) + part =~= base + seq![47u8] + part);
}

proof fn lemma_joined_text(base: Seq<u8>, text: Seq<char>)
    requires
        base.len() > 0,
        base.last() != 47,
        text.len() == 0 || text[0] != '/',
    ensures
        joined(base, path_of(text)) == base + path_of(seq!['/'] + text),
{
    lemma_path_of_absolute(text);
    lemma_slash_before(text);
    law_joining(base, path_of(text));
    assert(base + seq![47u8] + path_of(text) =~= base + (seq![47u8] + path_of(text)));
}

/// The files of an entry lie directly in its directory, and its Dockerfile in its workspace, under
/// their usual names.
pub proof fn law_files_of_an_entry(root: Seq<u8>)
    requires
        root.len() > 0,
        root.last() != 47,
    ensures
        paths_under(root).root == root,
        paths_under(root).config == root + path_of("/entry.toml"@),
        paths_under(root).build_script == root + path_of("/build.sh"@),
        paths_under(root).run_script == root + path_of("/run.sh"@),
        dockerfile_in(root) == root + path_of("/Dockerfile"@),
{
    reveal_strlit("entry.toml");
    reveal_strlit("/entry.toml");
    reveal_strlit("build.sh");
    reveal_strlit("/build.sh");
    reveal_strlit("run.sh");
    reveal_strlit("/run.sh");
    reveal_strlit("Dockerfile");
    reveal_strlit("/Dockerfile");
    assert("/entry.toml"@ =~= seq!['/'] + "entry.toml"@);
    assert("/build.sh"@ =~= seq!['/'] + "build.sh"@);
    assert("/run.sh"@ =~= seq!['/'] + "run.sh"@);
    assert("/Dockerfile"@ =~= seq!['/'] + "Dockerfile"@);
    lemma_joined_text(root, "entry.toml"@);
    lemma_joined_text(root, "build.sh"@);
    lemma_joined_text(root, "run.sh"@);
    lemma_joined_text(root, "Dockerfile"@);
}

/// An entry lies under its name in the directory `entries` of the root.
pub proof fn law_place_of_an_entry(root: Seq<u8>, name: Seq<char>)
    requires
        root.len() > 0,
        root.last() != 47,
        name.len() == 0 || name[0] != '/',
    ensures
        entry_root(root, name) == root + path_of("/entries/"@ + name),
{
    reveal_strlit("entries");
    reveal_strlit("/entries");
    reveal_strlit("/entries/");
    assert("/entries"@ =~= seq!['/'] + "entries"@);
    assert("/entries/"@ + name =~= "/entries"@ + (seq!['/'] + name));
    lemma_joined_text(root, "entries"@);
    lemma_entries_end(root);
    lemma_joined_text(entries_under(root), name);
    lemma_path_of_add("/entries"@, seq!['/'] + name);
    assert(root + path_of("/entries"@) + path_of(seq!['/'] + name) =~= root + (path_of("/entries"@)
        + path_of(seq!['/'] + name)));
}

/// The override for a directory lies in the directory `cmd-overrides` of the entry, under the
/// hexadecimal digits of the directory's path.
pub proof fn law_place_of_an_override(root: Seq<u8>, scope: Seq<u8>)
    requires
        root.len() > 0,
        root.last() != 47,
        scope.len() > 0,
    ensures
        override_dir(root, scope) == root + path_of("/cmd-overrides/"@ + hex_text(scope)),
        override_config(root, scope) == override_dir(root, scope) + path_of("/scope.toml"@),
        override_run_script(root, scope) == override_dir(root, scope) + path_of("/run.sh"@),
{
    let hex = hex_text(scope);
    reveal_strlit("cmd-overrides");
    reveal_strlit("/cmd-overrides");
    reveal_strlit("/cmd-overrides/");
    reveal_strlit("scope.toml");
    reveal_strlit("/scope.toml");
    reveal_strlit("run.sh");
    reveal_strlit("/run.sh");
    assert("/cmd-overrides"@ =~= seq!['/'] + "cmd-overrides"@);
    assert("/cmd-overrides/"@ + hex =~= "/cmd-overrides"@ + (seq!['/'] + hex));
    assert("/scope.toml"@ =~= seq!['/'] + "scope.toml"@);
    assert("/run.sh"@ =~= seq!['/'] + "run.sh"@);
    lemma_joined_text(root, "cmd-overrides"@);
    lemma_overrides_end(root);
    lemma_hex_chars(scope);
    assert(hex.len() == 2 * scope.len());
    assert((hex[0] as u32) < 128 && hex[0] != '/');
    lemma_joined_text(overrides_under(root), hex);
    lemma_path_of_add("/cmd-overrides"@, seq!['/'] + hex);
    let dir = override_dir(root, scope);
    assert(dir =~= root + (path_of("/cmd-overrides"@) + path_of(seq!['/'] + hex)));
    lemma_no_slash(hex);
    assert(dir.last() == path_of(seq!['/'] + hex).last());
    lemma_slash_before(hex);
    assert(path_of(seq!['/'] + hex).last() == path_of(hex)[path_of(hex).len() - 1]);
    lemma_joined_text(dir, "scope.toml"@);
    lemma_joined_text(dir, "run.sh"@);
}

/// The value of a hexadecimal digit, in small letters.
pub open spec fn hex_value(digit: char) -> int {
    if '0' <= digit <= '9' {
        digit as int - '0' as int
    } else if 'a' <= digit <= 'f' {
        digit as int - 'a' as int + 10
    } else {
        -1
    }
}

/// Each byte becomes the two digits that make its value, and bytes that follow each other become
/// digits that do.
pub proof fn law_bytes_as_hexadecimal(bytes: Seq<u8>, i: int)
    requires
        0 <= i < bytes.len(),
    ensures
        hex_text(bytes).len() == 2 * bytes.len(),
        0 <= hex_value(hex_text(bytes)[2 * i]) < 16,
        0 <= hex_value(hex_text(bytes)[2 * i + 1]) < 16,
        bytes[i] == 16 * hex_value(hex_text(bytes)[2 * i]) + hex_value(hex_text(bytes)[2 * i + 1]),
{
    assert((2 * i) / 2 == i && (2 * i) % 2 == 0);
    assert((2 * i + 1) / 2 == i && (2 * i + 1) % 2 == 1);
    let byte = bytes[i] as int;
    assert(hex_text(bytes)[2 * i] == hex_digit(byte / 16));
    assert(hex_text(bytes)[2 * i + 1] == hex_digit(byte % 16));
}

/// An entry name is letters, digits, hyphens, underscores and dots, one or more, all of ASCII.
/// Anything else is refused, and told apart is only the empty name.
pub proof fn law_entry_names(name: Seq<char>)
    ensures
        name_error(name) is None <==> name.len() > 0 && forall|i: int|
            0 <= i < name.len() ==> {
                let c = #[trigger] name[i];
                ('a' <= c <= 'z') || ('A' <= c <= 'Z') || ('0' <= c <= '9') || c == '-' || c == '_'
                    || c == '.'
            },
        name.len() == 0 ==> name_error(name) == Some(ErrorView::NameEmpty),
        name.len() > 0 && name_error(name) is Some ==> name_error(name) == Some(
            ErrorView::NameUnsupported { name },
        ),
{
    if valid_name(name) {
        assert forall|i: int| 0 <= i < name.len() implies {
            let c = #[trigger] name[i];
            ('a' <= c <= 'z') || ('A' <= c <= 'Z') || ('0' <= c <= '9') || c == '-' || c == '_' || c
                == '.'
        } by {
            assert(name_char(name[i]));
        }
    } else if name.len() > 0 {
        let i = choose|i: int| 0 <= i < name.len() && !name_char(#[trigger] name[i]);
        assert(!name_char(name[i]));
    }
}

/// A new entry is refused for its name, or else if its place is taken, and for nothing else.
pub proof fn law_new_entries_are_refused(root: Seq<u8>, name: Seq<char>, taken: bool)
    ensures
        new_entry_error(root, name, taken) is None <==> name_error(name) is None && !taken,
        name_error(name) is Some ==> new_entry_error(root, name, taken) == name_error(name),
        name_error(name) is None && taken ==> new_entry_error(root, name, taken) == Some(
            ErrorView::EntryExists { name, root: entry_root(root, name) },
        ),
{
}

/// The segments on both sides of a slash are the segments of the whole.
proof fn lemma_segments(a: Seq<u8>, b: Seq<u8>)
    ensures
        segments(a.push(SLASH) + b) == segments(a) + segments(b),
{
    lemma_pieces_apart(a, b, |b: u8| b == SLASH, SLASH);
}

proof fn lemma_same_segments(a: Seq<u8>, b: Seq<u8>)
    requires
        absolute(a) == absolute(b),
        segments(a) == segments(b),
    ensures
        same_path(a, b),
        file_name_of(a) == file_name_of(b),
{
}

/// Slashes at the end, repeated slashes and segments that are a dot make no difference.
pub proof fn law_same_paths(a: Seq<u8>, b: Seq<u8>)
    requires
        a.len() > 0,
    ensures
        same_path(a, a),
        same_path(a.push(47), a),
        same_path(a.push(47).push(47) + b, a.push(47) + b),
        same_path(a.push(47).push(46).push(47) + b, a.push(47) + b),
        file_name_of(a.push(47)) == file_name_of(a),
{
    let none = Seq::<u8>::empty();
    lemma_one_piece(none, |b: u8| b == SLASH);
    lemma_segments(a, none);
    assert(a.push(SLASH) + none =~= a.push(47));
    assert(segments(a) + segments(none) =~= segments(a));
    assert(a.push(47)[0] == a[0]);
    lemma_same_segments(a.push(47), a);

    let plain = a.push(47) + b;
    lemma_segments(a, b);
    let doubled = a.push(47).push(47) + b;
    lemma_segments(a.push(47), b);
    assert(doubled[0] == a[0] && plain[0] == a[0]);
    lemma_same_segments(doubled, plain);

    let dotted = a.push(47).push(46).push(47) + b;
    let dot = seq![46u8];
    lemma_one_piece(dot, |b: u8| b == SLASH);
    lemma_segments(a, dot);
    assert(a.push(SLASH) + dot =~= a.push(47).push(46));
    lemma_segments(a.push(47).push(46), b);
    assert(dotted[0] == a[0]);
    assert(dot =~= this_dir());
    let (x, y) = (segments(a), segments(b));
    let counts = |seg: Seq<u8>| seg != this_dir();
    assert(segments(dotted) =~= x.push(dot) + y);
    assert(segments(plain) =~= x + y);
    Seq::filter_distributes_over_add(x.push(dot), y, counts);
    Seq::filter_distributes_over_add(x, y, counts);
    x.lemma_filter_push(dot, counts);
    if x.len() > 0 {
        assert((x.push(dot) + y).skip(1) =~= x.skip(1).push(dot) + y);
        assert((x + y).skip(1) =~= x.skip(1) + y);
        Seq::filter_distributes_over_add(x.skip(1).push(dot), y, counts);
        Seq::filter_distributes_over_add(x.skip(1), y, counts);
        x.skip(1).lemma_filter_push(dot, counts);
    } else {
        lemma_relative_has_segment(a);
    }
}

/// A relative path that is not empty has a segment.
proof fn lemma_relative_has_segment(a: Seq<u8>)
    requires
        a.len() > 0,
        segments(a).len() == 0,
    ensures
        absolute(a),
{
}

/// An absolute path and a relative one are never the same, nor are two of which the one goes on
/// with another name.
pub proof fn law_different_paths(base: Seq<u8>, a: Seq<u8>, b: Seq<u8>)
    requires
        base.len() > 0,
        base.last() != 47,
        a.len() > 0,
        b.len() > 0,
        a != seq![46u8],
        b != seq![46u8],
        forall|i: int| 0 <= i < a.len() ==> #[trigger] a[i] != 47,
        forall|i: int| 0 <= i < b.len() ==> #[trigger] b[i] != 47,
    ensures
        same_path(base + seq![47u8] + a, base + seq![47u8] + b) <==> a == b,
        !same_path(base + seq![47u8] + a, base),
        !same_path(seq![47u8] + a, a),
{
    law_joining(base, a);
    law_joining(base, b);
    lemma_child_components(base, a);
    lemma_child_components(base, b);
    assert(this_dir() =~= seq![46u8]);
    let parts = components(base);
    assert(parts.push(a).len() == parts.len() + 1);
    if parts.push(a) == parts.push(b) {
        assert(parts.push(a).last() == parts.push(b).last());
    }
    assert((seq![47u8] + a)[0] == 47);
}

/// To be the same path is to be equal but for the writing, and what goes on with the same name from
/// the same path is the same again.
pub proof fn law_same_is_an_equivalence(a: Seq<u8>, b: Seq<u8>, c: Seq<u8>, name: Seq<u8>)
    ensures
        same_path(a, a),
        same_path(a, b) ==> same_path(b, a),
        same_path(a, b) && same_path(b, c) ==> same_path(a, c),
        a.len() > 0 && a.last() != 47 && b.len() > 0 && b.last() != 47 && name.len() > 0 && name
            != seq![46u8] && (forall|i: int| 0 <= i < name.len() ==> #[trigger] name[i] != 47) ==> (
        same_path(a + seq![47u8] + name, b + seq![47u8] + name) <==> same_path(a, b)),
{
    if a.len() > 0 && a.last() != 47 && b.len() > 0 && b.last() != 47 && name.len() > 0 && name
        != seq![46u8] && (forall|i: int| 0 <= i < name.len() ==> #[trigger] name[i] != 47) {
        law_joining(a, name);
        law_joining(b, name);
        assert(this_dir() =~= seq![46u8]);
        lemma_child_components(a, name);
        lemma_child_components(b, name);
        let (x, y) = (components(a), components(b));
        if x.push(name) == y.push(name) {
            assert(x.push(name).drop_last() =~= x);
            assert(y.push(name).drop_last() =~= y);
        }
        assert((a + seq![47u8] + name)[0] == a[0]);
        assert((b + seq![47u8] + name)[0] == b[0]);
    }
}

/// A dot that opens a relative path counts, and one behind the slash that opens an absolute path does
/// not. Neither a dot, nor two, nor a slash, nor nothing names a file.
pub proof fn law_dots(name: Seq<u8>)
    requires
        name.len() > 0,
        name != seq![46u8],
        forall|i: int| 0 <= i < name.len() ==> #[trigger] name[i] != 47,
    ensures
        !same_path(seq![46u8, 47u8] + name, name),
        same_path(seq![47u8, 46u8, 47u8] + name, seq![47u8] + name),
        file_name_of(seq![46u8]) is None,
        file_name_of(seq![46u8, 46u8]) is None,
        file_name_of(seq![47u8]) is None,
        file_name_of(Seq::empty()) is None,
{
    let slash = |b: u8| b == SLASH;
    let counts = |seg: Seq<u8>| seg != this_dir();
    let (none, dot, two) = (Seq::<u8>::empty(), seq![46u8], seq![46u8, 46u8]);
    let empty = Seq::<Seq<u8>>::empty();
    assert(this_dir() =~= dot);
    assert(parent_dir() =~= two);
    assert(empty.filter(counts) =~= empty) by {
        reveal(Seq::filter);
    }
    lemma_one_piece(none, slash);
    lemma_one_piece(dot, slash);
    lemma_one_piece(two, slash);
    lemma_one_piece(name, slash);
    lemma_segments(dot, name);
    lemma_segments(none, none);
    lemma_segments(none, name);
    assert(none.push(SLASH) + none =~= seq![47u8]);
    assert(none.push(SLASH) + name =~= seq![47u8] + name);
    assert(dot.push(SLASH) + name =~= seq![46u8, 47u8] + name);
    lemma_segments(none, dot.push(SLASH) + name);
    assert(none.push(SLASH) + (dot.push(SLASH) + name) =~= seq![47u8, 46u8, 47u8] + name);
    empty.lemma_filter_push(name, counts);
    empty.lemma_filter_push(dot, counts);
    empty.lemma_filter_push(two, counts);
    assert(empty.push(name) =~= seq![name]);
    assert(empty.push(dot) =~= seq![dot]);
    assert(empty.push(two) =~= seq![two]);
    let pair = seq![dot].push(name);
    seq![dot].lemma_filter_push(name, counts);
    assert(seq![dot] + seq![name] =~= pair);
    assert(pair.skip(1) =~= seq![name]);
    assert(segments(seq![46u8, 47u8] + name) =~= pair);
    assert(segments(seq![47u8, 46u8, 47u8] + name) =~= pair);
    assert(segments(seq![47u8] + name) =~= seq![name]);
    assert(components(seq![46u8, 47u8] + name) =~= pair);
    assert(components(name) =~= seq![name]);
    assert(seq![dot].skip(1) =~= empty);
    assert(components(dot) =~= seq![dot]);
    assert(components(two) =~= seq![two]);
}

/// The file name of a path is the name at its end, but for the names of a dot and of two dots.
pub proof fn law_file_names(base: Seq<u8>, name: Seq<u8>)
    requires
        name.len() > 0,
        forall|i: int| 0 <= i < name.len() ==> #[trigger] name[i] != 47,
        name != seq![46u8],
    ensures
        name != seq![46u8, 46u8] ==> file_name_of(base.push(47) + name) == Some(name),
        name != seq![46u8, 46u8] ==> file_name_of(name) == Some(name),
        name == seq![46u8, 46u8] ==> file_name_of(base.push(47) + name) is None,
{
    assert(this_dir() =~= seq![46u8]);
    assert(parent_dir() =~= seq![46u8, 46u8]);
    let counts = |seg: Seq<u8>| seg != this_dir();
    lemma_one_piece(name, |b: u8| b == SLASH);
    lemma_segments(base, name);
    let none = Seq::<Seq<u8>>::empty();
    assert(none.filter(counts) =~= none) by {
        reveal(Seq::filter);
    }
    none.lemma_filter_push(name, counts);
    assert(none.push(name) =~= seq![name]);
    assert(components(name) =~= seq![name]);
    let (old, whole) = (segments(base), base.push(47) + name);
    assert(segments(whole) =~= old.push(name));
    old.lemma_filter_push(name, counts);
    if old.len() > 0 {
        assert(old.push(name).skip(1) =~= old.skip(1).push(name));
        old.skip(1).lemma_filter_push(name, counts);
    }
    assert(components(whole).len() > 0 && components(whole).last() == name);
}

/// A workspace is imported under the name of its directory, where that is UTF-8, together with its
/// place and its own build script, if it has one. Of its dependencies nothing is known yet.
pub proof fn law_workspace_is_imported_by_name(
    base: Seq<u8>,
    name: Seq<char>,
    has_dockerfile: bool,
    has_build_script: bool,
)
    requires
        path_of(name).len() > 0,
        forall|i: int| 0 <= i < path_of(name).len() ==> #[trigger] path_of(name)[i] != 47,
        path_of(name) != seq![46u8],
        path_of(name) != seq![46u8, 46u8],
    ensures
        ({
            let path = base.push(47) + path_of(name);
            let source = source_at(WorkspaceProbeView { path, has_dockerfile, has_build_script });
            &&& import_name(path) == Some(name)
            &&& source.name == name
            &&& source.workspace == path
            &&& has_build_script ==> source.build_script == Some(path + path_of("/build.sh"@))
            &&& !has_build_script ==> source.build_script is None
            &&& source.depends_on.len() == 0
        }),
{
    let path = base.push(47) + path_of(name);
    law_file_names(base, path_of(name));
    encode_utf8_valid_utf8(name);
    encode_utf8_decode_utf8(name);
    reveal_strlit("build.sh");
    reveal_strlit("/build.sh");
    assert("/build.sh"@ =~= seq!['/'] + "build.sh"@);
    assert(path.last() == path_of(name)[path_of(name).len() - 1]);
    lemma_joined_text(path, "build.sh"@);
}

/// A name that is not UTF-8, or none at all, is not imported under.
pub proof fn law_only_text_names_are_imported(path: Seq<u8>)
    ensures
        import_name(path) is Some <==> (file_name_of(path) matches Some(bytes) && valid_utf8(
            bytes,
        )),
{
}

/// Something is imported exactly from a directory that has a Dockerfile, or in which some directory
/// has one, if everything that has one has a name.
pub proof fn law_import_needs_something(probe: ImportProbe)
    ensures
        discovery_error(probe) is None ==> probe.is_dir,
        !probe.is_dir ==> discovery_error(probe) == Some(
            ErrorView::ImportNotDirectory { path: probe.itself@.path },
        ),
        probe.is_dir && probe.itself.has_dockerfile ==> (discovery_error(probe) is None
            <==> import_name(probe.itself@.path) is Some),
        probe.is_dir && !probe.itself.has_dockerfile ==> (discovery_error(probe) is None <==> (
        exists|i: int|
            0 <= i < probe.children@.len() && (#[trigger] probe.children@[i]).has_dockerfile) && (
        forall|i: int|
            0 <= i < probe.children@.len() && (#[trigger] probe.children@[i]).has_dockerfile
                ==> import_name(probe.children@[i]@.path) is Some)),
        probe.is_dir && discovery_error(probe) is Some ==> {
            ||| discovery_error(probe) == Some(ErrorView::ImportNameInvalid) && (
            probe.itself.has_dockerfile || exists|i: int|
                0 <= i < probe.children@.len() && (#[trigger] probe.children@[i]).has_dockerfile
                    && import_name(probe.children@[i]@.path) is None)
            ||| discovery_error(probe) == Some(
                ErrorView::NothingToImport { path: probe.itself@.path },
            ) && !probe.itself.has_dockerfile && forall|i: int|
                0 <= i < probe.children@.len() ==> !(#[trigger] probe.children@[i]).has_dockerfile
        },
{
    let places = import_places(probe);
    if probe.is_dir && probe.itself.has_dockerfile {
        assert(places[0] == probe.itself@);
        if import_name(probe.itself@.path) is Some {
            assert(!lacks_name(places));
        }
    }
    if probe.is_dir && !probe.itself.has_dockerfile {
        let children = views(probe.children@);
        let fits = |probe: WorkspaceProbeView| probe.has_dockerfile;
        assert forall|i: int|
            0 <= i < probe.children@.len() && (
            #[trigger] probe.children@[i]).has_dockerfile implies places.contains(
            probe.children@[i]@,
        ) by {
            assert(children[i] == probe.children@[i]@);
            children.lemma_filter_contains(fits, i);
        }
        assert forall|p: int| 0 <= p < places.len() implies exists|i: int|
            0 <= i < probe.children@.len() && (#[trigger] probe.children@[i]).has_dockerfile
                && probe.children@[i]@ == #[trigger] places[p] by {
            children.lemma_filter_pred(fits, p);
            assert(places.contains(places[p]));
            children.lemma_filter_contains_rev(fits, places[p]);
            let i = children.index_of(places[p]);
            assert(probe.children@[i]@ == places[p]);
        }
        if exists|i: int|
            0 <= i < probe.children@.len() && (#[trigger] probe.children@[i]).has_dockerfile {
            let i = choose|i: int|
                0 <= i < probe.children@.len() && (#[trigger] probe.children@[i]).has_dockerfile;
            assert(places.contains(probe.children@[i]@));
        }
        if places.len() > 0 {
            assert(places[0] == places[0]);
        }
        if forall|i: int|
            0 <= i < probe.children@.len() && (#[trigger] probe.children@[i]).has_dockerfile
                ==> import_name(probe.children@[i]@.path) is Some {
            assert forall|p: int| 0 <= p < places.len() implies import_name(
                (#[trigger] places[p]).path,
            ) is Some by {
                let i = choose|i: int|
                    0 <= i < probe.children@.len() && (#[trigger] probe.children@[i]).has_dockerfile
                        && probe.children@[i]@ == places[p];
                assert(probe.children@[i].has_dockerfile);
            }
            assert(!lacks_name(places));
        } else {
            let i = choose|i: int|
                0 <= i < probe.children@.len() && (#[trigger] probe.children@[i]).has_dockerfile
                    && import_name(probe.children@[i]@.path) is None;
            assert(places.contains(probe.children@[i]@));
            let p = places.index_of(probe.children@[i]@);
            assert(import_name(places[p].path) is None);
        }
    }
}

} // verus!
