//! Text: white space, words, lines, trimming, and lists of names.

use vstd::prelude::*;
use vstd::string::*;

verus! {

/// `String::push` of std appends the given character to the end of the string.
pub assume_specification[ String::push ](s: &mut String, c: char)
    ensures
        final(s)@ == old(s)@.push(c),
;

/// The texts that a sequence of strings holds.
pub open spec fn texts(strings: Seq<String>) -> Seq<Seq<char>> {
    strings.map_values(|s: String| s@)
}

/// Tells whether a name occurs in a list of names.
pub fn contains_name(names: &Vec<String>, name: &String) -> (b: bool)
    ensures
        b == texts(names@).contains(name@),
{
    let mut i: usize = 0;
    while i < names.len()
        invariant
            i <= names@.len(),
            forall|j: int| 0 <= j < i ==> texts(names@)[j] != name@,
        decreases names@.len() - i,
    {
        if names[i] == *name {
            assert(texts(names@)[i as int] == name@);
            return true;
        }
        i = i + 1;
    }
    assert(texts(names@).len() == names@.len());
    false
}

/// A copy of a list of strings.
pub fn copy_strings(strings: &Vec<String>) -> (copy: Vec<String>)
    ensures
        texts(copy@) == texts(strings@),
{
    let mut copy: Vec<String> = Vec::new();
    let mut i: usize = 0;
    while i < strings.len()
        invariant
            i <= strings@.len(),
            copy@.len() == i,
            forall|j: int| 0 <= j < i ==> (#[trigger] copy@[j])@ == strings@[j]@,
        decreases strings@.len() - i,
    {
        copy.push(strings[i].clone());
        i = i + 1;
    }
    assert(texts(copy@) =~= texts(strings@));
    copy
}

/// The characters with the Unicode property `White_Space`.
pub open spec fn white_space(c: char) -> bool {
    ||| '\u{9}' <= c <= '\u{d}'
    ||| c == ' '
    ||| c == '\u{85}'
    ||| c == '\u{a0}'
    ||| c == '\u{1680}'
    ||| '\u{2000}' <= c <= '\u{200a}'
    ||| c == '\u{2028}'
    ||| c == '\u{2029}'
    ||| c == '\u{202f}'
    ||| c == '\u{205f}'
    ||| c == '\u{3000}'
}

/// Tells whether a character is white space.
pub fn is_white_space(c: char) -> (b: bool)
    ensures
        b == white_space(c),
{
    ('\u{9}' <= c && c <= '\u{d}') || c == ' ' || c == '\u{85}' || c == '\u{a0}' || c == '\u{1680}'
        || ('\u{2000}' <= c && c <= '\u{200a}') || c == '\u{2028}' || c == '\u{2029}'
        || c == '\u{202f}' || c == '\u{205f}' || c == '\u{3000}'
}

/// The length of the longest prefix of `s` in which nothing satisfies `stop`.
pub open spec fn run_len<T>(s: Seq<T>, stop: spec_fn(T) -> bool) -> nat
    decreases s.len(),
{
    if s.len() == 0 || stop(s[0]) {
        0
    } else {
        1 + run_len(s.skip(1), stop)
    }
}

/// A run is no longer than its sequence, holds no stop, and ends at one or at the end.
pub proof fn lemma_run_len<T>(s: Seq<T>, stop: spec_fn(T) -> bool)
    ensures
        run_len(s, stop) <= s.len(),
        forall|i: int| 0 <= i < run_len(s, stop) ==> !stop(#[trigger] s[i]),
        run_len(s, stop) < s.len() ==> stop(s[run_len(s, stop) as int]),
    decreases s.len(),
{
    if s.len() != 0 && !stop(s[0]) {
        lemma_run_len(s.skip(1), stop);
        assert forall|i: int| 0 <= i < run_len(s, stop) implies !stop(#[trigger] s[i]) by {
            if i > 0 {
                assert(s[i] == s.skip(1)[i - 1]);
            }
        }
    }
}

/// The maximal non-empty pieces of `s` between the items that satisfy `sep`, in order.
pub open spec fn pieces<T>(s: Seq<T>, sep: spec_fn(T) -> bool) -> Seq<Seq<T>>
    decreases s.len(),
{
    if s.len() == 0 {
        Seq::empty()
    } else if sep(s[0]) {
        pieces(s.skip(1), sep)
    } else {
        let n = run_len(s.skip(1), sep) + 1;
        proof {
            lemma_run_len(s.skip(1), sep);
        }
        seq![s.take(n as int)] + pieces(s.skip(n as int), sep)
    }
}

/// The words of a text: its maximal pieces without white space.
pub open spec fn words(s: Seq<char>) -> Seq<Seq<char>> {
    pieces(s, |c: char| white_space(c))
}

/// The characters of a text.
pub fn chars_of(s: &str) -> (chars: Vec<char>)
    ensures
        chars@ == s@,
{
    let mut chars: Vec<char> = Vec::new();
    for c in it: s.chars()
        invariant
            chars@ == it.seq().take(it.index() as int),
            it.seq() == s@,
    {
        chars.push(c);
    }
    chars
}

/// The text made of the characters from position `from` up to position `to`.
pub fn text_of(chars: &Vec<char>, from: usize, to: usize) -> (text: String)
    requires
        from <= to <= chars@.len(),
    ensures
        text@ == chars@.subrange(from as int, to as int),
{
    let mut text: String = String::new();
    let mut i: usize = from;
    while i < to
        invariant
            from <= i <= to <= chars@.len(),
            text@ == chars@.subrange(from as int, i as int),
        decreases to - i,
    {
        text.push(chars[i]);
        i = i + 1;
    }
    text
}

/// The words of a text, separated by white space.
pub fn split_whitespace(s: &str) -> (parts: Vec<String>)
    ensures
        texts(parts@) == words(s@),
{
    let chars: Vec<char> = chars_of(s);
    let ghost sep = |c: char| white_space(c);
    let mut parts: Vec<String> = Vec::new();
    let mut i: usize = 0;
    assert(s@.skip(0) == s@);
    assert(texts(parts@) == Seq::<Seq<char>>::empty());
    while i < chars.len()
        invariant
            i <= chars@.len(),
            chars@ == s@,
            sep == (|c: char| white_space(c)),
            words(s@) == texts(parts@) + pieces(s@.skip(i as int), sep),
        decreases chars@.len() - i,
    {
        let ghost rest = s@.skip(i as int);
        if is_white_space(chars[i]) {
            assert(rest.skip(1) == s@.skip(i + 1));
            i = i + 1;
        } else {
            let start: usize = i;
            i = i + 1;
            assert(rest.skip(1) == s@.skip(i as int));
            while i < chars.len() && !is_white_space(chars[i])
                invariant
                    start < i <= chars@.len(),
                    chars@ == s@,
                    sep == (|c: char| white_space(c)),
                    run_len(s@.skip(start + 1), sep) == i - start - 1 + run_len(s@.skip(i as int), sep),
                decreases chars@.len() - i,
            {
                assert(s@.skip(i as int).skip(1) == s@.skip(i + 1));
                i = i + 1;
            }
            let ghost n = run_len(rest.skip(1), sep) + 1;
            assert(n == i - start);
            assert(rest.take(n as int) == s@.subrange(start as int, i as int));
            assert(rest.skip(n as int) == s@.skip(i as int));
            let ghost before = texts(parts@);
            let word: String = text_of(&chars, start, i);
            parts.push(word);
            assert(texts(parts@) == before + seq![rest.take(n as int)]);
        }
    }
    assert(s@.skip(i as int).len() == 0);
    parts
}

/// `s` begins with `prefix`.
pub open spec fn begins_with(s: Seq<char>, prefix: Seq<char>) -> bool {
    prefix.len() <= s.len() && s.take(prefix.len() as int) == prefix
}

/// Tells whether `s` begins with `prefix`.
pub fn starts_with(s: &str, prefix: &str) -> (b: bool)
    ensures
        b == begins_with(s@, prefix@),
{
    let chars: Vec<char> = chars_of(s);
    let wanted: Vec<char> = chars_of(prefix);
    if wanted.len() > chars.len() {
        return false;
    }
    let mut i: usize = 0;
    while i < wanted.len()
        invariant
            i <= wanted@.len() <= chars@.len(),
            chars@ == s@,
            wanted@ == prefix@,
            forall|j: int| 0 <= j < i ==> chars@[j] == wanted@[j],
        decreases wanted@.len() - i,
    {
        if chars[i] != wanted[i] {
            assert(s@.take(prefix@.len() as int)[i as int] != prefix@[i as int]);
            return false;
        }
        i = i + 1;
    }
    assert(s@.take(prefix@.len() as int) =~= prefix@);
    true
}

/// Tells whether two texts are equal.
pub fn same_text(a: &str, b: &str) -> (same: bool)
    ensures
        same == (a@ == b@),
{
    let left: Vec<char> = chars_of(a);
    let right: Vec<char> = chars_of(b);
    if left.len() != right.len() {
        return false;
    }
    let mut i: usize = 0;
    while i < left.len()
        invariant
            i <= left@.len() == right@.len(),
            left@ == a@,
            right@ == b@,
            forall|j: int| 0 <= j < i ==> left@[j] == right@[j],
        decreases left@.len() - i,
    {
        if left[i] != right[i] {
            return false;
        }
        i = i + 1;
    }
    assert(a@ =~= b@);
    true
}

/// A text without the white space at its beginning.
pub open spec fn trimmed_start(s: Seq<char>) -> Seq<char> {
    s.skip(run_len(s, |c: char| !white_space(c)) as int)
}

/// A text without the white space at its end.
pub open spec fn trimmed_end(s: Seq<char>) -> Seq<char>
    decreases s.len(),
{
    if s.len() > 0 && white_space(s.last()) {
        trimmed_end(s.drop_last())
    } else {
        s
    }
}

/// A text without the white space at its beginning and its end.
pub open spec fn trimmed(s: Seq<char>) -> Seq<char> {
    trimmed_end(trimmed_start(s))
}

fn blank_len(chars: &Vec<char>) -> (n: usize)
    ensures
        n == run_len(chars@, |c: char| !white_space(c)),
        n <= chars@.len(),
{
    let ghost stop = |c: char| !white_space(c);
    let mut i: usize = 0;
    assert(chars@.skip(0) =~= chars@);
    while i < chars.len() && is_white_space(chars[i])
        invariant
            i <= chars@.len(),
            stop == (|c: char| !white_space(c)),
            run_len(chars@, stop) == i + run_len(chars@.skip(i as int), stop),
        decreases chars@.len() - i,
    {
        assert(chars@.skip(i as int).skip(1) =~= chars@.skip(i + 1));
        i = i + 1;
    }
    i
}

/// The text without the white space at its beginning.
pub fn trim_start(s: &str) -> (text: String)
    ensures
        text@ == trimmed_start(s@),
{
    let chars: Vec<char> = chars_of(s);
    let from: usize = blank_len(&chars);
    text_of(&chars, from, chars.len())
}

/// The text without the white space at its beginning and its end.
pub fn trim(s: &str) -> (text: String)
    ensures
        text@ == trimmed(s@),
{
    let chars: Vec<char> = chars_of(s);
    let from: usize = blank_len(&chars);
    let mut to: usize = chars.len();
    assert(chars@.subrange(from as int, to as int) =~= trimmed_start(s@));
    while to > from && is_white_space(chars[to - 1])
        invariant
            from <= to <= chars@.len(),
            trimmed_end(chars@.subrange(from as int, to as int)) == trimmed(s@),
        decreases to,
    {
        assert(chars@.subrange(from as int, to as int).drop_last() =~= chars@.subrange(
            from as int,
            to - 1,
        ));
        to = to - 1;
    }
    text_of(&chars, from, to)
}

/// A line without the carriage return at its end.
pub open spec fn without_return(line: Seq<char>) -> Seq<char> {
    if line.len() > 0 && line.last() == '\r' {
        line.drop_last()
    } else {
        line
    }
}

/// The lines of a text: what stands between its line feeds, without a carriage return directly
/// before a line feed, and without an empty line at the end.
pub open spec fn lines_of(s: Seq<char>) -> Seq<Seq<char>>
    decreases s.len(),
{
    let n = run_len(s, |c: char| c == '\n');
    if s.len() == 0 {
        Seq::empty()
    } else if n >= s.len() {
        seq![s]
    } else {
        seq![without_return(s.take(n as int))] + lines_of(s.skip(n as int + 1))
    }
}

/// The lines of a text.
pub fn lines(s: &str) -> (parts: Vec<String>)
    ensures
        texts(parts@) == lines_of(s@),
{
    let chars: Vec<char> = chars_of(s);
    let ghost feed = |c: char| c == '\n';
    let mut parts: Vec<String> = Vec::new();
    let mut i: usize = 0;
    assert(s@.skip(0) == s@);
    assert(texts(parts@) == Seq::<Seq<char>>::empty());
    while i < chars.len()
        invariant
            i <= chars@.len(),
            chars@ == s@,
            feed == (|c: char| c == '\n'),
            lines_of(s@) == texts(parts@) + lines_of(s@.skip(i as int)),
        decreases chars@.len() - i,
    {
        let ghost rest = s@.skip(i as int);
        let start: usize = i;
        while i < chars.len() && chars[i] != '\n'
            invariant
                start <= i <= chars@.len(),
                chars@ == s@,
                feed == (|c: char| c == '\n'),
                run_len(s@.skip(start as int), feed) == i - start + run_len(s@.skip(i as int), feed),
            decreases chars@.len() - i,
        {
            assert(s@.skip(i as int).skip(1) == s@.skip(i + 1));
            i = i + 1;
        }
        let ghost before = texts(parts@);
        assert(run_len(rest, feed) == i - start);
        if i < chars.len() {
            let mut end: usize = i;
            assert(rest.take(i - start) =~= s@.subrange(start as int, i as int));
            if end > start && chars[end - 1] == '\r' {
                end = end - 1;
                assert(rest.take(i - start).drop_last() =~= s@.subrange(start as int, end as int));
            }
            let line: String = text_of(&chars, start, end);
            parts.push(line);
            assert(line@ == without_return(rest.take(i - start)));
            assert(texts(parts@) =~= before + seq![line@]);
            assert(rest.skip(i - start + 1) =~= s@.skip(i + 1));
            assert(before + (seq![line@] + lines_of(s@.skip(i + 1))) =~= texts(parts@) + lines_of(
                s@.skip(i + 1),
            ));
            i = i + 1;
        } else {
            let line: String = text_of(&chars, start, i);
            assert(s@.subrange(start as int, i as int) =~= rest);
            parts.push(line);
            assert(texts(parts@) =~= before + seq![rest]);
            assert(s@.skip(i as int) =~= Seq::empty());
        }
    }
    assert(s@.skip(i as int).len() == 0);
    parts
}

} // verus!
