//! The editor that opens an entry's files.

use vstd::prelude::*;
use vstd::string::*;

use crate::error::{Error, ErrorView};
use crate::text::{pieces, texts, trim, trimmed};

verus! {

/// The error of `shell_words::split`, which says that a quote is not closed.
#[verifier::external_type_specification]
#[verifier::external_body]
pub struct ExParseError(shell_words::ParseError);

/// The words of a command line as `shell_words::split` finds them, or nothing where a quote is not
/// closed.
pub uninterp spec fn shell_split(text: Seq<char>) -> Option<Seq<Seq<char>>>;

/// A text without quotes, backslashes and comments.
pub open spec fn is_plain(text: Seq<char>) -> bool {
    forall|i: int|
        0 <= i < text.len() ==> #[trigger] text[i] != '\'' && text[i] != '"' && text[i] != '\\'
            && text[i] != '#'
}

/// The words of a text without quotes, backslashes and comments.
pub open spec fn plain_words(text: Seq<char>) -> Seq<Seq<char>> {
    pieces(text, |c: char| c == ' ' || c == '\t' || c == '\n')
}

/// `shell_words::split` splits a text as a Unix shell does, into what `shell_split` names, and
/// gives an error exactly where that is nothing. A text without quotes, backslashes and comments
/// it splits at spaces, tabs and line feeds. How it treats the others is not stated.
pub assume_specification[ shell_words::split ](s: &str) -> (outcome: Result<
    Vec<String>,
    shell_words::ParseError,
>)
    ensures
        match outcome {
            Ok(list) => shell_split(s@) == Some(texts(list@)) && (is_plain(s@) ==> texts(list@)
                == plain_words(s@)),
            Err(_) => shell_split(s@) is None && !is_plain(s@),
        },
;

/// An editor and the arguments that go before the file.
#[derive(Debug)]
pub struct Editor {
    pub program: String,
    pub args: Vec<String>,
}

/// An editor and its arguments.
#[verifier::ext_equal]
pub struct EditorView {
    pub program: Seq<char>,
    pub args: Seq<Seq<char>>,
}

impl View for Editor {
    type V = EditorView;

    open spec fn view(&self) -> EditorView {
        EditorView { program: self.program@, args: texts(self.args@) }
    }
}

/// The editor that the words of command `raw` name, if there are words.
pub open spec fn editor_of(
    raw: Seq<char>,
    words: Option<Seq<Seq<char>>>,
) -> Result<EditorView, ErrorView> {
    match words {
        Some(list) => if list.len() == 0 {
            Err(ErrorView::EditorEmpty)
        } else {
            Ok(EditorView { program: list[0], args: list.skip(1) })
        },
        None => Err(ErrorView::EditorUnreadable { raw }),
    }
}

/// The value of a variable that is set to more than white space.
pub open spec fn telling(value: Option<String>) -> Option<Seq<char>> {
    match value {
        Some(text) => if trimmed(text@).len() > 0 {
            Some(text@)
        } else {
            None
        },
        None => None,
    }
}

/// The command of the editor: that of `VISUAL`, else that of `EDITOR`, else `vi`.
pub open spec fn editor_command(visual: Option<String>, editor: Option<String>) -> Seq<char> {
    match telling(visual) {
        Some(text) => text,
        None => match telling(editor) {
            Some(text) => text,
            None => "vi"@,
        },
    }
}

/// The value, if it is more than white space.
fn keep_telling(value: Option<String>) -> (kept: Option<String>)
    ensures
        match kept {
            Some(text) => telling(value) == Some(text@),
            None => telling(value) is None,
        },
{
    match value {
        Some(text) => {
            let rest: String = trim(text.as_str());
            if rest.as_str().is_empty() {
                None
            } else {
                Some(text)
            }
        },
        None => None,
    }
}

impl Editor {
    /// The editor that the environment variables `VISUAL` and `EDITOR` name.
    pub fn from_env(visual: Option<String>, editor: Option<String>) -> (result: Result<
        Editor,
        Error,
    >)
        ensures
            ({
                let raw = editor_command(visual, editor);
                match result {
                    Ok(e) => editor_of(raw, shell_split(raw)) == Ok::<EditorView, ErrorView>(e@),
                    Err(e) => editor_of(raw, shell_split(raw)) == Err::<EditorView, ErrorView>(e@),
                }
            }),
            ({
                let raw = editor_command(visual, editor);
                is_plain(raw) ==> match result {
                    Ok(e) => editor_of(raw, Some(plain_words(raw))) == Ok::<EditorView, ErrorView>(
                        e@,
                    ),
                    Err(e) => editor_of(raw, Some(plain_words(raw))) == Err::<
                        EditorView,
                        ErrorView,
                    >(e@),
                }
            }),
    {
        let raw: String = match keep_telling(visual) {
            Some(text) => text,
            None => match keep_telling(editor) {
                Some(text) => text,
                None => "vi".to_owned(),
            },
        };
        Editor::from_raw(raw.as_str())
    }

    /// The editor that a command names.
    pub fn from_raw(raw: &str) -> (result: Result<Editor, Error>)
        ensures
            match result {
                Ok(e) => editor_of(raw@, shell_split(raw@)) == Ok::<EditorView, ErrorView>(e@),
                Err(e) => editor_of(raw@, shell_split(raw@)) == Err::<EditorView, ErrorView>(e@),
            },
            is_plain(raw@) ==> match result {
                Ok(e) => editor_of(raw@, Some(plain_words(raw@))) == Ok::<EditorView, ErrorView>(
                    e@,
                ),
                Err(e) => editor_of(raw@, Some(plain_words(raw@))) == Err::<EditorView, ErrorView>(
                    e@,
                ),
            },
    {
        match shell_words::split(raw) {
            Ok(words) => Editor::from_words(raw, Some(words)),
            Err(_) => Editor::from_words(raw, None),
        }
    }

    /// The editor that the words of command `raw` name. Without words there is none.
    pub fn from_words(raw: &str, words: Option<Vec<String>>) -> (result: Result<Editor, Error>)
        ensures
            ({
                let list = match words {
                    Some(w) => Some(texts(w@)),
                    None => None,
                };
                match result {
                    Ok(e) => editor_of(raw@, list) == Ok::<EditorView, ErrorView>(e@),
                    Err(e) => editor_of(raw@, list) == Err::<EditorView, ErrorView>(e@),
                }
            }),
    {
        match words {
            Some(mut parts) => {
                let ghost list = texts(parts@);
                assert(list.len() == parts@.len());
                if parts.len() == 0 {
                    return Err(Error::EditorEmpty);
                }
                let program: String = parts.remove(0);
                assert(program@ == list[0]);
                assert(texts(parts@) =~= list.skip(1));
                Ok(Editor { program, args: parts })
            },
            None => Err(Error::EditorUnreadable { raw: raw.to_owned() }),
        }
    }

    /// What comes of an editor that ended with this status.
    pub fn finished(&self, success: bool, status: &str) -> (result: Result<(), Error>)
        ensures
            match result {
                Ok(()) => success,
                Err(e) => !success && e@ == (ErrorView::EditorFailed {
                    program: self@.program,
                    status: status@,
                }),
            },
    {
        if success {
            Ok(())
        } else {
            Err(Error::EditorFailed { program: self.program.clone(), status: status.to_owned() })
        }
    }
}

} // verus!
