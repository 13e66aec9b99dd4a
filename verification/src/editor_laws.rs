//! Which editor opens a file.

use vstd::prelude::*;
use vstd::string::*;

use crate::editor::{editor_command, editor_of, plain_words, EditorView};
use crate::error::ErrorView;
use crate::path_laws::{lemma_one_piece, lemma_pieces_apart};
use crate::text::{trimmed, white_space};
use crate::text_laws::{is_blank, law_trimming_both_sides};

verus! {

/// A variable that is not set, or set to nothing but white space.
pub open spec fn says_nothing(variable: Option<String>) -> bool {
    variable is None || is_blank(variable->0@)
}

proof fn lemma_blank(s: Seq<char>)
    ensures
        trimmed(s).len() == 0 <==> is_blank(s),
{
    law_trimming_both_sides(s);
    let (front, back) = choose|front: Seq<char>, back: Seq<char>|
        is_blank(front) && is_blank(back) && s == #[trigger] (front + trimmed(s) + back);
    if trimmed(s).len() == 0 {
        assert forall|i: int| 0 <= i < s.len() implies white_space(#[trigger] s[i]) by {
            if i < front.len() {
                assert(s[i] == front[i]);
            } else {
                assert(s[i] == back[i - front.len()]);
            }
        }
    } else {
        assert(s[front.len() as int] == trimmed(s)[0]);
    }
}

/// What `VISUAL` says comes first, then what `EDITOR` says, each as it stands. Where neither says
/// anything, the editor is `vi`.
pub proof fn law_editor_is_chosen_in_turn(visual: Option<String>, editor: Option<String>)
    ensures
        !says_nothing(visual) ==> editor_command(visual, editor) == visual->0@,
        says_nothing(visual) && !says_nothing(editor) ==> editor_command(visual, editor)
            == editor->0@,
        says_nothing(visual) && says_nothing(editor) ==> editor_command(visual, editor) == seq![
            'v',
            'i',
        ],
{
    reveal_strlit("vi");
    assert("vi"@ =~= seq!['v', 'i']);
    if visual is Some {
        lemma_blank(visual->0@);
    }
    if editor is Some {
        lemma_blank(editor->0@);
    }
}

/// The words of a command are the program and its arguments, all of them and in order. A command
/// without words, or one that has no words because it cannot be read, is refused.
pub proof fn law_words_are_program_and_arguments(raw: Seq<char>, list: Seq<Seq<char>>)
    ensures
        editor_of(raw, Some(list)) is Ok <==> list.len() > 0,
        list.len() > 0 ==> seq![editor_of(raw, Some(list))->Ok_0.program] + editor_of(
            raw,
            Some(list),
        )->Ok_0.args == list,
        list.len() == 0 ==> editor_of(raw, Some(list)) == Err::<EditorView, ErrorView>(
            ErrorView::EditorEmpty,
        ),
        editor_of(raw, None) == Err::<EditorView, ErrorView>(ErrorView::EditorUnreadable { raw }),
{
    if list.len() > 0 {
        assert(seq![list[0]] + list.skip(1) =~= list);
    }
}

/// A character that parts the words of a command.
pub open spec fn parts_words(c: char) -> bool {
    c == ' ' || c == '\t' || c == '\n'
}

/// Spaces, tabs and line feeds part the words of a plain command. What has none of them is one word.
pub proof fn law_plain_words(a: Seq<char>, c: char, b: Seq<char>)
    ensures
        parts_words(c) ==> plain_words(a.push(c) + b) == plain_words(a) + plain_words(b),
        (forall|i: int| 0 <= i < a.len() ==> !parts_words(#[trigger] a[i])) ==> plain_words(a) == (
        if a.len() > 0 {
            seq![a]
        } else {
            Seq::empty()
        }),
{
    let sep = |c: char| c == ' ' || c == '\t' || c == '\n';
    if parts_words(c) {
        lemma_pieces_apart(a, b, sep, c);
    }
    if forall|i: int| 0 <= i < a.len() ==> !parts_words(#[trigger] a[i]) {
        assert forall|i: int| 0 <= i < a.len() implies !sep(#[trigger] a[i]) by {
            assert(!parts_words(a[i]));
        }
        lemma_one_piece(a, sep);
    }
}

} // verus!
