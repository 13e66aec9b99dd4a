//! What the lines of a Dockerfile say of the images that it builds upon.

use vstd::prelude::*;
use vstd::string::*;

use crate::dockerfile::{
    base_images, entry_images, first_operand, from_image, images_of, line_image,
};
use crate::import::law_import_dependencies;
use crate::name_order::is_name_set;
use crate::text::{begins_with, lines_of, trimmed_start, white_space, words};
use crate::text_laws::{
    comes_before, is_blank, law_last_line_needs_no_feed, law_line_feed_ends_a_line,
    law_names_are_in_dictionary_order, law_trimming_keeps_words, law_trimming_the_beginning,
};

verus! {

/// A word with two hyphens in front.
pub open spec fn is_option(word: Seq<char>) -> bool {
    word.len() >= 2 && word[0] == '-' && word[1] == '-'
}

/// The image stands behind the first word, with nothing but options between.
pub open spec fn operand_at(list: Seq<Seq<char>>, image: Seq<char>, k: int) -> bool {
    &&& 1 <= k < list.len()
    &&& list[k] == image
    &&& !is_option(image)
    &&& forall|j: int| 1 <= j < k ==> is_option(#[trigger] list[j])
}

/// A line that begins with `FROM` and a space, behind white space or none.
pub open spec fn is_from_line(line: Seq<char>, front: Seq<char>, rest: Seq<char>) -> bool {
    is_blank(front) && line == front + seq!['F', 'R', 'O', 'M', ' '] + rest
}

proof fn lemma_option(word: Seq<char>)
    ensures
        begins_with(word, "--"@) == is_option(word),
{
    reveal_strlit("--");
    if word.len() >= 2 {
        let front = word.take(2);
        assert(front[0] == word[0] && front[1] == word[1]);
        if is_option(word) {
            assert(front =~= "--"@);
        }
    }
}

/// The operand is the first that is no option.
proof fn lemma_first_operand(list: Seq<Seq<char>>, i: int, image: Seq<char>)
    requires
        1 <= i <= list.len(),
        forall|j: int| 1 <= j < i ==> is_option(#[trigger] list[j]),
    ensures
        first_operand(list.skip(i)) == Some(image) <==> exists|k: int| operand_at(list, image, k),
    decreases list.len() - i,
{
    let rest = list.skip(i);
    if i == list.len() {
        assert(rest.len() == 0);
        if exists|k: int| operand_at(list, image, k) {
            let k = choose|k: int| operand_at(list, image, k);
            assert(is_option(list[k]));
        }
    } else {
        assert(rest[0] == list[i]);
        lemma_option(list[i]);
        if is_option(list[i]) {
            assert(rest.skip(1) =~= list.skip(i + 1));
            lemma_first_operand(list, i + 1, image);
        } else {
            if list[i] == image {
                assert(operand_at(list, image, i));
            }
            if exists|k: int| operand_at(list, image, k) {
                let k = choose|k: int| operand_at(list, image, k);
                if k > i {
                    assert(is_option(list[i]));
                }
                if k < i {
                    assert(is_option(list[k]));
                }
            }
        }
    }
}

/// A line whose first word is `FROM` names the first word behind it that is no option.
pub proof fn law_from_names_its_operand(line: Seq<char>, image: Seq<char>)
    ensures
        from_image(line) == Some(image) <==> {
            &&& words(line).len() > 0
            &&& words(line)[0] == seq!['F', 'R', 'O', 'M']
            &&& exists|k: int| operand_at(words(line), image, k)
        },
{
    reveal_strlit("FROM");
    assert("FROM"@ =~= seq!['F', 'R', 'O', 'M']);
    if words(line).len() > 0 {
        lemma_first_operand(words(line), 1, image);
    }
}

/// What is left when the white space in front is gone is told by the line.
proof fn lemma_from_line(line: Seq<char>)
    ensures
        begins_with(trimmed_start(line), "FROM "@) <==> exists|front: Seq<char>, rest: Seq<char>|
            is_from_line(line, front, rest),
{
    reveal_strlit("FROM ");
    let mark = seq!['F', 'R', 'O', 'M', ' '];
    assert("FROM "@ =~= mark);
    let text = trimmed_start(line);
    law_trimming_the_beginning(line);
    let blank = choose|front: Seq<char>|
        is_blank(front) && line == #[trigger] (front + trimmed_start(line));
    if begins_with(text, mark) {
        let rest = text.skip(5);
        assert(text =~= mark + rest);
        assert(blank + (mark + rest) =~= blank + mark + rest);
        assert(is_from_line(line, blank, rest));
    }
    if exists|front: Seq<char>, rest: Seq<char>| is_from_line(line, front, rest) {
        let (front, rest) = choose|front: Seq<char>, rest: Seq<char>|
            is_from_line(line, front, rest);
        let n = front.len() as int;
        assert(line[n] == 'F');
        assert(!white_space(line[n]));
        if blank.len() < n {
            assert(text.len() > 0);
            assert(text[0] == line[blank.len() as int]);
            assert(front[blank.len() as int] == line[blank.len() as int]);
        }
        if blank.len() > n {
            assert(blank[n] == line[n]);
        }
        assert(blank.len() == n);
        assert(text =~= line.skip(n));
        assert(line.skip(n) =~= mark + rest);
        assert(text.take(5) =~= mark);
    }
}

/// One line of a Dockerfile names at most one image: the first word behind `FROM` that is no option.
/// Only a line that begins with `FROM` and a space, behind white space or none, names one.
pub proof fn law_line_names_its_image(line: Seq<char>, image: Seq<char>)
    requires
        !line.contains('\n'),
    ensures
        base_images(line).len() <= 1,
        base_images(line).contains(image) <==> {
            &&& exists|front: Seq<char>, rest: Seq<char>| is_from_line(line, front, rest)
            &&& words(line)[0] == seq!['F', 'R', 'O', 'M']
            &&& exists|k: int| operand_at(words(line), image, k)
        },
{
    law_last_line_needs_no_feed(line);
    lemma_from_line(line);
    if line.len() == 0 {
        assert(lines_of(line) =~= Seq::empty());
        if exists|front: Seq<char>, rest: Seq<char>| is_from_line(line, front, rest) {
            let (front, rest) = choose|front: Seq<char>, rest: Seq<char>|
                is_from_line(line, front, rest);
            assert(line.len() >= 5);
        }
    } else {
        let list = seq![line];
        assert(list.drop_last() =~= Seq::empty());
        assert(list.last() == line);
        assert(images_of(list.drop_last()) =~= Seq::empty());
        law_trimming_keeps_words(line);
        law_from_names_its_operand(trimmed_start(line), image);
        match line_image(line) {
            Some(named) => {
                assert(base_images(line) =~= seq![named]);
                assert(base_images(line)[0] == named);
            },
            None => {
                assert(base_images(line) =~= Seq::empty());
            },
        }
    }
}

proof fn lemma_images_in_parts(a: Seq<Seq<char>>, b: Seq<Seq<char>>)
    ensures
        images_of(a + b) == images_of(a) + images_of(b),
    decreases b.len(),
{
    if b.len() == 0 {
        assert(a + b =~= a);
        assert(images_of(a) + images_of(b) =~= images_of(a));
    } else {
        lemma_images_in_parts(a, b.drop_last());
        assert((a + b).drop_last() =~= a + b.drop_last());
        assert((a + b).last() == b.last());
        match line_image(b.last()) {
            Some(image) => {
                assert((images_of(a) + images_of(b.drop_last())).push(image) =~= images_of(a) + (
                images_of(b.drop_last()).push(image)));
            },
            None => {},
        }
    }
}

/// The images of a Dockerfile are those of its lines, line by line.
pub proof fn law_lines_name_images_in_turn(line: Seq<char>, rest: Seq<char>)
    requires
        !line.contains('\n'),
        line.len() == 0 || line.last() != '\r',
    ensures
        base_images(line.push('\n') + rest) == base_images(line) + base_images(rest),
        base_images(line.push('\r').push('\n') + rest) == base_images(line) + base_images(rest),
{
    law_line_feed_ends_a_line(line, rest);
    law_last_line_needs_no_feed(line);
    lemma_images_in_parts(seq![line], lines_of(rest));
    if line.len() == 0 {
        let list = seq![line];
        assert(list.drop_last() =~= Seq::empty());
        law_trimming_the_beginning(line);
        assert(trimmed_start(line).len() == 0);
        reveal_strlit("FROM ");
        assert(list.last() == line);
        assert(line_image(line) is None);
        assert(images_of(list.drop_last()) =~= Seq::empty());
        assert(images_of(list) =~= Seq::empty());
        assert(lines_of(line) =~= Seq::empty());
        assert(images_of(lines_of(line)) =~= Seq::empty());
    }
}

/// The dependencies that a Dockerfile tells of stand in dictionary order, each once.
pub proof fn law_dependencies_are_in_order(
    images: Seq<Seq<char>>,
    name: Seq<char>,
    imported: Seq<Seq<char>>,
    existing: Seq<Seq<char>>,
    depends_on: Seq<Seq<char>>,
)
    requires
        is_name_set(entry_images(images, name, imported, existing), depends_on),
    ensures
        forall|i: int, j: int|
            0 <= i < j < depends_on.len() ==> comes_before(
                #[trigger] depends_on[i],
                #[trigger] depends_on[j],
            ),
        forall|other: Seq<char>| #[trigger]
            depends_on.contains(other) <==> images.contains(other) && other != name && (
            imported.contains(other) || existing.contains(other)),
{
    assert forall|i: int, j: int| 0 <= i < j < depends_on.len() implies comes_before(
        #[trigger] depends_on[i],
        #[trigger] depends_on[j],
    ) by {
        law_names_are_in_dictionary_order(depends_on[i], depends_on[j]);
    }
    assert forall|other: Seq<char>| #[trigger]
        depends_on.contains(other) <==> images.contains(other) && other != name && (
        imported.contains(other) || existing.contains(other)) by {
        law_import_dependencies(images, name, imported, existing, depends_on, other);
    }
}

} // verus!
