//! What a Dockerfile builds upon.

use vstd::prelude::*;
use vstd::string::*;

use crate::name_order::{is_name_set, sort_and_dedup};
use crate::text::{
    begins_with, contains_name, lines, lines_of, same_text, split_whitespace, starts_with, texts,
    trim_start, trimmed_start, words,
};

verus! {

/// The first word that is not an option.
pub open spec fn first_operand(list: Seq<Seq<char>>) -> Option<Seq<char>>
    decreases list.len(),
{
    if list.len() == 0 {
        None
    } else if begins_with(list[0], "--"@) {
        first_operand(list.skip(1))
    } else {
        Some(list[0])
    }
}

/// The image that a `FROM` line names.
pub open spec fn from_image(line: Seq<char>) -> Option<Seq<char>> {
    let list = words(line);
    if list.len() > 0 && list[0] == "FROM"@ {
        first_operand(list.skip(1))
    } else {
        None
    }
}

/// The image that a line builds upon: only lines that begin with `FROM` and a space, behind any
/// white space, name one.
pub open spec fn line_image(line: Seq<char>) -> Option<Seq<char>> {
    if begins_with(trimmed_start(line), "FROM "@) {
        from_image(trimmed_start(line))
    } else {
        None
    }
}

/// The images that a list of lines builds upon, in order.
pub open spec fn images_of(list: Seq<Seq<char>>) -> Seq<Seq<char>>
    decreases list.len(),
{
    if list.len() == 0 {
        Seq::empty()
    } else {
        let before = images_of(list.drop_last());
        match line_image(list.last()) {
            Some(image) => before.push(image),
            None => before,
        }
    }
}

/// The images that a Dockerfile builds upon, in order.
pub open spec fn base_images(content: Seq<char>) -> Seq<Seq<char>> {
    images_of(lines_of(content))
}

/// The image that a `FROM` line names.
pub fn parse_from_image(line: &str) -> (image: Option<String>)
    ensures
        match image {
            Some(text) => from_image(line@) == Some(text@),
            None => from_image(line@) is None,
        },
{
    let parts: Vec<String> = split_whitespace(line);
    let ghost list = texts(parts@);
    if parts.len() == 0 {
        return None;
    }
    assert(list[0] == parts@[0]@);
    if !same_text(parts[0].as_str(), "FROM") {
        return None;
    }
    let mut i: usize = 1;
    while i < parts.len()
        invariant
            1 <= i <= parts@.len(),
            list == texts(parts@),
            from_image(line@) == first_operand(list.skip(i as int)),
        decreases parts@.len() - i,
    {
        assert(list.skip(i as int)[0] == parts@[i as int]@);
        assert(list.skip(i as int).skip(1) =~= list.skip(i + 1));
        if !starts_with(parts[i].as_str(), "--") {
            return Some(parts[i].clone());
        }
        i = i + 1;
    }
    assert(list.skip(i as int).len() == 0);
    None
}

/// The images that a Dockerfile builds upon.
pub fn parse_dockerfile_from_images(content: &str) -> (images: Vec<String>)
    ensures
        texts(images@) == base_images(content@),
{
    let parts: Vec<String> = lines(content);
    let ghost list = texts(parts@);
    let mut images: Vec<String> = Vec::new();
    let mut i: usize = 0;
    assert(list.take(0) =~= Seq::empty());
    assert(texts(images@) =~= Seq::empty());
    while i < parts.len()
        invariant
            i <= parts@.len(),
            list == texts(parts@),
            texts(images@) == images_of(list.take(i as int)),
        decreases parts@.len() - i,
    {
        let ghost before = texts(images@);
        assert(list.take(i + 1).drop_last() =~= list.take(i as int));
        assert(list.take(i + 1).last() == parts@[i as int]@);
        let trimmed: String = trim_start(parts[i].as_str());
        if starts_with(trimmed.as_str(), "FROM ") {
            match parse_from_image(trimmed.as_str()) {
                Some(image) => {
                    images.push(image);
                    assert(texts(images@) =~= before.push(image@));
                },
                None => {},
            }
        }
        i = i + 1;
    }
    assert(list.take(i as int) =~= list);
    images
}

/// Tells images apart that are entries: others than `name`, imported or recorded.
pub open spec fn is_entry_image(
    name: Seq<char>,
    imported: Seq<Seq<char>>,
    existing: Seq<Seq<char>>,
) -> spec_fn(Seq<char>) -> bool {
    |image: Seq<char>| image != name && (imported.contains(image) || existing.contains(image))
}

/// The images that are entries: others than `name`, imported together with it or recorded before.
pub open spec fn entry_images(
    images: Seq<Seq<char>>,
    name: Seq<char>,
    imported: Seq<Seq<char>>,
    existing: Seq<Seq<char>>,
) -> Seq<Seq<char>> {
    images.filter(is_entry_image(name, imported, existing))
}

/// The entries that the Dockerfile of entry `name` builds upon, in order and each once.
pub fn infer_import_dependencies(
    content: &str,
    name: &String,
    imported_names: &Vec<String>,
    existing_names: &Vec<String>,
) -> (depends_on: Vec<String>)
    ensures
        is_name_set(
            entry_images(
                base_images(content@),
                name@,
                texts(imported_names@),
                texts(existing_names@),
            ),
            texts(depends_on@),
        ),
{
    let images: Vec<String> = parse_dockerfile_from_images(content);
    let ghost list = texts(images@);
    let ghost imported = texts(imported_names@);
    let ghost existing = texts(existing_names@);
    let ghost wanted = is_entry_image(name@, imported, existing);
    let mut found: Vec<String> = Vec::new();
    let mut i: usize = 0;
    proof {
        reveal(Seq::filter);
        assert(texts(found@) =~= list.take(0).filter(wanted));
    }
    while i < images.len()
        invariant
            i <= images@.len(),
            list == texts(images@),
            imported == texts(imported_names@),
            existing == texts(existing_names@),
            wanted == is_entry_image(name@, imported, existing),
            texts(found@) == list.take(i as int).filter(wanted),
        decreases images@.len() - i,
    {
        let ghost before = texts(found@);
        proof {
            assert(list[i as int] == images@[i as int]@);
            assert(list.take(i + 1) =~= list.take(i as int).push(list[i as int]));
            list.take(i as int).lemma_filter_push(list[i as int], wanted);
        }
        let image: &String = &images[i];
        if !(*image == *name) && (contains_name(imported_names, image) || contains_name(
            existing_names,
            image,
        )) {
            found.push(image.clone());
            assert(texts(found@) =~= before.push(list[i as int]));
        }
        i = i + 1;
    }
    assert(list.take(i as int) =~= list);
    sort_and_dedup(found)
}

} // verus!
