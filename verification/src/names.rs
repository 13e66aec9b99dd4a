//! The names of entries, and where entries lie.

use vstd::prelude::*;
use vstd::string::*;

use crate::entry::{paths_under, EntryPaths};
use crate::error::{Error, ErrorView};
use crate::path::{joined, lemma_ascii_path, lemma_path_of_absolute, path_of, UnixPath, SLASH};
use crate::text::chars_of;

verus! {

/// A character that an entry name may hold.
pub open spec fn name_char(c: char) -> bool {
    ||| 'a' <= c <= 'z'
    ||| 'A' <= c <= 'Z'
    ||| '0' <= c <= '9'
    ||| c == '-'
    ||| c == '_'
    ||| c == '.'
}

/// A text is an entry name if it is not empty and holds only the characters that it may.
pub open spec fn valid_name(name: Seq<char>) -> bool {
    name.len() > 0 && forall|i: int| 0 <= i < name.len() ==> name_char(#[trigger] name[i])
}

/// What is wrong with an entry name, if anything is.
pub open spec fn name_error(name: Seq<char>) -> Option<ErrorView> {
    if name.len() == 0 {
        Some(ErrorView::NameEmpty)
    } else if !valid_name(name) {
        Some(ErrorView::NameUnsupported { name })
    } else {
        None
    }
}

fn is_name_char(c: char) -> (b: bool)
    ensures
        b == name_char(c),
{
    ('a' <= c && c <= 'z') || ('A' <= c && c <= 'Z') || ('0' <= c && c <= '9') || c == '-' || c
        == '_' || c == '.'
}

/// Refuses a text that is not an entry name.
pub fn validate_name(name: &str) -> (result: Result<(), Error>)
    ensures
        match result {
            Ok(()) => name_error(name@) is None,
            Err(e) => name_error(name@) == Some(e@),
        },
{
    let chars: Vec<char> = chars_of(name);
    if chars.len() == 0 {
        return Err(Error::NameEmpty);
    }
    let mut i: usize = 0;
    while i < chars.len()
        invariant
            i <= chars@.len(),
            chars@ == name@,
            name@.len() > 0,
            forall|j: int| 0 <= j < i ==> name_char(#[trigger] chars@[j]),
        decreases chars@.len() - i,
    {
        if !is_name_char(chars[i]) {
            assert(!name_char(name@[i as int]));
            return Err(Error::NameUnsupported { name: name.to_owned() });
        }
        i = i + 1;
    }
    Ok(())
}

/// Where the entries under `root` lie.
pub open spec fn entries_under(root: Seq<u8>) -> Seq<u8> {
    joined(root, path_of("entries"@))
}

/// Where the entry of this name lies.
pub open spec fn entry_root(root: Seq<u8>, name: Seq<char>) -> Seq<u8> {
    joined(entries_under(root), path_of(name))
}

/// Where the entries under `root` lie.
pub fn entries_dir(root: &UnixPath) -> (path: UnixPath)
    ensures
        path@ == entries_under(root@),
{
    root.join("entries")
}

/// The paths of the entry of this name.
pub fn entry_paths(root: &UnixPath, name: &str) -> (paths: EntryPaths)
    ensures
        paths@ == paths_under(entry_root(root@, name@)),
{
    EntryPaths::new(entries_dir(root).join(name))
}

/// Why an entry of this name cannot be made, if that is so: the name is refused, or taken.
pub open spec fn new_entry_error(root: Seq<u8>, name: Seq<char>, taken: bool) -> Option<ErrorView> {
    match name_error(name) {
        Some(e) => Some(e),
        None => if taken {
            Some(ErrorView::EntryExists { name, root: entry_root(root, name) })
        } else {
            None
        },
    }
}

/// The paths of an entry that is to be made. `taken` tells whether there is something at its place
/// already.
pub fn new_entry_paths(root: &UnixPath, name: &str, taken: bool) -> (result: Result<
    EntryPaths,
    Error,
>)
    ensures
        match result {
            Ok(paths) => {
                &&& new_entry_error(root@, name@, taken) is None
                &&& paths@ == paths_under(entry_root(root@, name@))
            },
            Err(e) => new_entry_error(root@, name@, taken) == Some(e@),
        },
{
    match validate_name(name) {
        Ok(()) => {},
        Err(e) => {
            return Err(e);
        },
    }
    let paths: EntryPaths = entry_paths(root, name);
    if taken {
        return Err(Error::EntryExists { name: name.to_owned(), root: paths.root });
    }
    Ok(paths)
}

/// Refuses an entry that is not there. `config_exists` tells whether its configuration is.
pub fn ensure_entry_exists(paths: &EntryPaths, config_exists: bool) -> (result: Result<(), Error>)
    ensures
        match result {
            Ok(()) => config_exists,
            Err(e) => !config_exists && e@ == (ErrorView::EntryNotFound { root: paths@.root }),
        },
{
    if config_exists {
        Ok(())
    } else {
        Err(Error::EntryNotFound { root: paths.root.clone() })
    }
}

/// The path of an entry is that of the directory of entries with its name behind it, whatever that
/// name leads to.
pub proof fn law_entry_lies_under_entries(root: Seq<u8>, name: Seq<char>)
    requires
        valid_name(name),
    ensures
        entry_root(root, name) == entries_under(root).push(SLASH) + path_of(name),
{
    let base = entries_under(root);
    lemma_path_of_absolute(name);
    assert(name_char(name[0]));
    lemma_entries_end(root);
}

/// Where entries lie does not end in a slash.
pub proof fn lemma_entries_end(root: Seq<u8>)
    ensures
        entries_under(root).len() > 0,
        entries_under(root).last() != SLASH,
{
    reveal_strlit("entries");
    let part = path_of("entries"@);
    lemma_path_of_absolute("entries"@);
    lemma_ascii_path("entries"@);
    assert(part.len() == 7);
    assert(part.last() == 115);
    assert(entries_under(root).last() == part.last());
}

} // verus!
