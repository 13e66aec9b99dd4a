//! What words, lines, trimming, numbers and the order of names come to.

use vstd::prelude::*;

use crate::name_order::text_at_most;
use crate::number::{
    decimal, digits_value, is_digit, law_decimal_is_read_back, means_number, signed_decimal,
    unsigned_digits,
};
use crate::path_laws::{lemma_one_piece, lemma_pieces_apart};
use crate::text::{
    begins_with, lemma_run_len, lines_of, run_len, trimmed, trimmed_end, trimmed_start, white_space,
    words,
};

verus! {

/// Every character is white space.
pub open spec fn is_blank(s: Seq<char>) -> bool {
    forall|i: int| 0 <= i < s.len() ==> white_space(#[trigger] s[i])
}

/// No character is white space.
pub open spec fn has_no_blank(s: Seq<char>) -> bool {
    forall|i: int| 0 <= i < s.len() ==> !white_space(#[trigger] s[i])
}

/// White space parts words: the words on both sides of it are the words of the whole.
pub proof fn law_white_space_parts_words(a: Seq<char>, c: char, b: Seq<char>)
    requires
        white_space(c),
    ensures
        words(a.push(c) + b) == words(a) + words(b),
{
    lemma_pieces_apart(a, b, |c: char| white_space(c), c);
}

/// What has no white space in it is one word, or none if there is nothing.
pub proof fn law_unbroken_text_is_a_word(s: Seq<char>)
    requires
        has_no_blank(s),
    ensures
        s.len() > 0 ==> words(s) == seq![s],
        s.len() == 0 ==> words(s).len() == 0,
{
    lemma_one_piece(s, |c: char| white_space(c));
}

/// White space around a text has no words.
pub proof fn law_blank_has_no_words(blank: Seq<char>, s: Seq<char>)
    requires
        is_blank(blank),
    ensures
        words(blank).len() == 0,
        words(blank + s) == words(s),
    decreases blank.len(),
{
    if blank.len() == 0 {
        assert(blank + s =~= s);
        law_unbroken_text_is_a_word(blank);
    } else {
        let (c, rest) = (blank[0], blank.skip(1));
        assert forall|i: int| 0 <= i < rest.len() implies white_space(#[trigger] rest[i]) by {
            assert(rest[i] == blank[i + 1]);
        }
        law_blank_has_no_words(rest, s);
        let none = Seq::<char>::empty();
        law_unbroken_text_is_a_word(none);
        law_white_space_parts_words(none, c, rest + s);
        law_white_space_parts_words(none, c, rest);
        assert(none.push(c) + (rest + s) =~= blank + s);
        assert(none.push(c) + rest =~= blank);
        assert(words(none) + words(rest + s) =~= words(s));
        assert(words(none) + words(rest) =~= words(rest));
    }
}

/// A line feed ends a line, of which a carriage return directly before it is no part.
pub proof fn law_line_feed_ends_a_line(line: Seq<char>, rest: Seq<char>)
    requires
        !line.contains('\n'),
    ensures
        line.len() == 0 || line.last() != '\r' ==> lines_of(line.push('\n') + rest) == seq![line]
            + lines_of(rest),
        lines_of(line.push('\r').push('\n') + rest) == seq![line] + lines_of(rest),
{
    lemma_line_feed(line, rest);
    let longer = line.push('\r');
    assert(!longer.contains('\n')) by {
        if longer.contains('\n') {
            let i = longer.index_of('\n');
            assert(line[i] == '\n');
        }
    }
    lemma_line_feed(longer, rest);
    assert(longer.drop_last() =~= line);
}

proof fn lemma_line_feed(line: Seq<char>, rest: Seq<char>)
    requires
        !line.contains('\n'),
    ensures
        lines_of(line.push('\n') + rest) == seq![
            if line.len() > 0 && line.last() == '\r' {
                line.drop_last()
            } else {
                line
            },
        ] + lines_of(rest),
{
    let whole = line.push('\n') + rest;
    let feed = |c: char| c == '\n';
    lemma_run_len(whole, feed);
    let n = run_len(whole, feed) as int;
    assert(whole[line.len() as int] == '\n');
    if n < line.len() {
        assert(whole[n] == line[n]);
        assert(line.contains(line[n]));
    }
    if n > line.len() {
        assert(!feed(whole[line.len() as int]));
    }
    assert(whole.take(n) =~= line);
    assert(whole.skip(n + 1) =~= rest);
}

/// Without a line feed there is one line, or none if there is nothing.
pub proof fn law_last_line_needs_no_feed(line: Seq<char>)
    requires
        !line.contains('\n'),
    ensures
        line.len() > 0 ==> lines_of(line) == seq![line],
        line.len() == 0 ==> lines_of(line).len() == 0,
{
    let feed = |c: char| c == '\n';
    lemma_run_len(line, feed);
    let n = run_len(line, feed) as int;
    if n < line.len() {
        assert(line.contains(line[n]));
    }
}

/// Trimming at the beginning takes white space away and leaves none there.
pub proof fn law_trimming_the_beginning(s: Seq<char>)
    ensures
        exists|front: Seq<char>| is_blank(front) && s == #[trigger] (front + trimmed_start(s)),
        trimmed_start(s).len() > 0 ==> !white_space(trimmed_start(s)[0]),
{
    let stop = |c: char| !white_space(c);
    lemma_run_len(s, stop);
    let n = run_len(s, stop) as int;
    let front = s.take(n);
    assert forall|i: int| 0 <= i < front.len() implies white_space(#[trigger] front[i]) by {
        assert(!stop(s[i]));
    }
    assert(s =~= front + trimmed_start(s));
}

proof fn lemma_trimmed_end(s: Seq<char>)
    ensures
        trimmed_end(s).len() <= s.len(),
        trimmed_end(s) == s.take(trimmed_end(s).len() as int),
        is_blank(s.skip(trimmed_end(s).len() as int)),
        trimmed_end(s).len() > 0 ==> !white_space(trimmed_end(s).last()),
    decreases s.len(),
{
    if s.len() > 0 && white_space(s.last()) {
        let front = s.drop_last();
        lemma_trimmed_end(front);
        let n = trimmed_end(s).len() as int;
        assert(front.take(n) =~= s.take(n));
        let tail = s.skip(n);
        assert forall|i: int| 0 <= i < tail.len() implies white_space(#[trigger] tail[i]) by {
            if i < tail.len() - 1 {
                assert(tail[i] == front.skip(n)[i]);
            }
        }
    } else {
        assert(s.take(s.len() as int) =~= s);
    }
}

/// Trimming takes white space away on both sides and leaves none there.
pub proof fn law_trimming_both_sides(s: Seq<char>)
    ensures
        exists|front: Seq<char>, back: Seq<char>|
            is_blank(front) && is_blank(back) && s == #[trigger] (front + trimmed(s) + back),
        trimmed(s).len() > 0 ==> !white_space(trimmed(s)[0]) && !white_space(trimmed(s).last()),
{
    law_trimming_the_beginning(s);
    let front = choose|front: Seq<char>|
        is_blank(front) && s == #[trigger] (front + trimmed_start(s));
    let rest = trimmed_start(s);
    lemma_trimmed_end(rest);
    let back = rest.skip(trimmed(s).len() as int);
    assert(s =~= front + trimmed(s) + back);
}

/// Trimming does not change the words.
pub proof fn law_trimming_keeps_words(s: Seq<char>)
    ensures
        words(trimmed_start(s)) == words(s),
{
    law_trimming_the_beginning(s);
    let front = choose|front: Seq<char>|
        is_blank(front) && s == #[trigger] (front + trimmed_start(s));
    law_blank_has_no_words(front, trimmed_start(s));
}

/// What has no white space at its ends is all that is left when white space around it is trimmed.
pub proof fn law_trimmed_text_is_what_was_framed(
    front: Seq<char>,
    text: Seq<char>,
    back: Seq<char>,
)
    requires
        is_blank(front),
        is_blank(back),
        text.len() > 0 ==> !white_space(text[0]) && !white_space(text.last()),
    ensures
        trimmed(front + text + back) == text,
{
    let s = front + text + back;
    law_trimming_both_sides(s);
    let (p, q) = choose|p: Seq<char>, q: Seq<char>|
        is_blank(p) && is_blank(q) && s == #[trigger] (p + trimmed(s) + q);
    let t = trimmed(s);
    if text.len() == 0 {
        if t.len() > 0 {
            let i = p.len() as int;
            assert(s[i] == t[0]);
            if i < front.len() {
                assert(s[i] == front[i]);
            } else {
                assert(s[i] == back[i - front.len()]);
            }
        }
        assert(t =~= text);
    } else {
        let (a, b) = (front.len() as int, front.len() + text.len() - 1);
        assert(s[a] == text[0]);
        assert(s[b] == text.last());
        if t.len() == 0 {
            if a < p.len() {
                assert(s[a] == p[a]);
            } else {
                assert(s[a] == q[a - p.len()]);
            }
        } else {
            let (c, d) = (p.len() as int, p.len() + t.len() - 1);
            assert(s[c] == t[0]);
            assert(s[d] == t.last());
            if a < c {
                assert(s[a] == p[a]);
            }
            if c < a {
                assert(s[c] == front[c]);
            }
            if b > d {
                assert(s[b] == q[b - d - 1]);
            }
            if d > b {
                assert(s[d] == back[d - b - 1]);
            }
            assert(t =~= s.subrange(c, d + 1));
            assert(text =~= s.subrange(a, b + 1));
        }
    }
}

/// `a` stands before `b` in a dictionary: it is a beginning of `b`, or smaller at the first
/// difference.
pub open spec fn comes_before(a: Seq<char>, b: Seq<char>) -> bool {
    ||| a.len() < b.len() && b.take(a.len() as int) == a
    ||| exists|k: int|
        0 <= k < a.len() && k < b.len() && #[trigger] a.take(k) == b.take(k) && a[k] < b[k]
}

/// Names are ordered as in a dictionary.
pub proof fn law_names_are_in_dictionary_order(a: Seq<char>, b: Seq<char>)
    ensures
        text_at_most(a, b) <==> a == b || comes_before(a, b),
    decreases a.len(),
{
    if a.len() == 0 {
        if b.len() == 0 {
            assert(a =~= b);
        } else {
            assert(b.take(0) =~= a);
        }
    } else if b.len() == 0 {
    } else if a[0] != b[0] {
        if a[0] < b[0] {
            assert(a.take(0) =~= b.take(0));
        }
        if comes_before(a, b) {
            if a.len() < b.len() && b.take(a.len() as int) == a {
                assert(b.take(a.len() as int)[0] == b[0]);
            } else {
                let k = choose|k: int|
                    0 <= k < a.len() && k < b.len() && #[trigger] a.take(k) == b.take(k) && a[k]
                        < b[k];
                if k > 0 {
                    assert(a.take(k)[0] == b.take(k)[0]);
                }
            }
        }
    } else {
        let (x, y) = (a.skip(1), b.skip(1));
        law_names_are_in_dictionary_order(x, y);
        assert(a =~= seq![a[0]] + x);
        assert(b =~= seq![b[0]] + y);
        if comes_before(x, y) {
            if x.len() < y.len() && y.take(x.len() as int) == x {
                assert(b.take(a.len() as int) =~= seq![b[0]] + y.take(x.len() as int));
            } else {
                let k = choose|k: int|
                    0 <= k < x.len() && k < y.len() && #[trigger] x.take(k) == y.take(k) && x[k]
                        < y[k];
                assert(a.take(k + 1) =~= seq![a[0]] + x.take(k));
                assert(b.take(k + 1) =~= seq![b[0]] + y.take(k));
            }
        }
        if comes_before(a, b) {
            if a.len() < b.len() && b.take(a.len() as int) == a {
                assert(y.take(x.len() as int) =~= b.take(a.len() as int).skip(1));
            } else {
                let k = choose|k: int|
                    0 <= k < a.len() && k < b.len() && #[trigger] a.take(k) == b.take(k) && a[k]
                        < b[k];
                assert(k > 0);
                assert(x.take(k - 1) =~= a.take(k).skip(1));
                assert(y.take(k - 1) =~= b.take(k).skip(1));
            }
        }
    }
}

/// One more digit makes a number ten times as large, and adds its own value.
pub proof fn law_digits_are_decimal(digits: Seq<char>, digit: char)
    requires
        is_digit(digit),
    ensures
        '0' <= digit <= '9',
        digits_value(digits.push(digit)) == 10 * digits_value(digits) + (digit as int - '0' as int),
        digits_value(Seq::empty()) == 0,
{
    assert(digits.push(digit).drop_last() =~= digits);
}

/// A number is written without leading zeros, and a negative one as its size behind a minus sign.
pub proof fn law_numbers_are_written_plainly(n: nat, m: int)
    ensures
        n > 0 ==> decimal(n)[0] != '0',
        n == 0 ==> decimal(n) == seq!['0'],
        m >= 0 ==> signed_decimal(m) == decimal(m as nat),
        m < 0 ==> signed_decimal(m) == seq!['-'] + decimal((-m) as nat),
    decreases n,
{
    if n >= 10 {
        law_numbers_are_written_plainly(n / 10, m);
        law_decimal_is_read_back(n / 10);
        assert(decimal(n)[0] == decimal(n / 10)[0]);
    }
}

/// A text means a number if it is digits, one or more, perhaps behind one plus sign, that mean no
/// more than may be.
pub proof fn law_number_texts(text: Seq<char>, max: int)
    ensures
        means_number(text, max) ==> unsigned_digits(text).len() > 0 && digits_value(
            unsigned_digits(text),
        ) <= max && (forall|i: int|
            0 <= i < text.len() ==> '0' <= #[trigger] text[i] <= '9' || (i == 0 && text[i] == '+')),
        (text.len() > 0 && (forall|i: int| 0 <= i < text.len() ==> '0' <= #[trigger] text[i] <= '9')
            && digits_value(text) <= max) ==> means_number(text, max) && unsigned_digits(text)
            == text,
        unsigned_digits(seq!['+'] + text) == text,
{
    assert((seq!['+'] + text).skip(1) =~= text);
    let digits = unsigned_digits(text);
    if means_number(text, max) {
        assert forall|i: int| 0 <= i < text.len() implies '0' <= #[trigger] text[i] <= '9' || (i == 0
            && text[i] == '+') by {
            if text[0] == '+' {
                if i > 0 {
                    assert(digits[i - 1] == text[i]);
                    assert(is_digit(digits[i - 1]));
                }
            } else {
                assert(is_digit(digits[i]));
            }
        }
    }
}

/// A text begins with another exactly if something follows that makes the whole of it.
pub proof fn law_beginnings(s: Seq<char>, prefix: Seq<char>)
    ensures
        begins_with(s, prefix) <==> exists|rest: Seq<char>| s == #[trigger] (prefix + rest),
{
    if begins_with(s, prefix) {
        assert(s =~= prefix + s.skip(prefix.len() as int));
    }
    if exists|rest: Seq<char>| s == #[trigger] (prefix + rest) {
        let rest = choose|rest: Seq<char>| s == #[trigger] (prefix + rest);
        assert(s.take(prefix.len() as int) =~= prefix);
    }
}

/// White space is what separates and breaks text: five controls, the space, the next line, the
/// no-break space, and the spaces and separators among the other scripts and punctuation.
pub proof fn law_white_space_characters(c: char)
    ensures
        white_space(c) <==> seq![
            0x9u32,
            0xa,
            0xb,
            0xc,
            0xd,
            0x20,
            0x85,
            0xa0,
            0x1680,
            0x2000,
            0x2001,
            0x2002,
            0x2003,
            0x2004,
            0x2005,
            0x2006,
            0x2007,
            0x2008,
            0x2009,
            0x200a,
            0x2028,
            0x2029,
            0x202f,
            0x205f,
            0x3000,
        ].contains(c as u32),
{
    let all = seq![
        0x9u32,
        0xa,
        0xb,
        0xc,
        0xd,
        0x20,
        0x85,
        0xa0,
        0x1680,
        0x2000,
        0x2001,
        0x2002,
        0x2003,
        0x2004,
        0x2005,
        0x2006,
        0x2007,
        0x2008,
        0x2009,
        0x200a,
        0x2028,
        0x2029,
        0x202f,
        0x205f,
        0x3000,
    ];
    let n = c as u32;
    if white_space(c) {
        let i = if n <= 0xd {
            n - 0x9
        } else if n == 0x20 {
            5
        } else if n == 0x85 {
            6
        } else if n == 0xa0 {
            7
        } else if n == 0x1680 {
            8
        } else if n <= 0x200a {
            n - 0x2000 + 9
        } else if n == 0x2028 {
            20
        } else if n == 0x2029 {
            21
        } else if n == 0x202f {
            22
        } else if n == 0x205f {
            23
        } else {
            24
        };
        assert(all[i] == n);
    }
    if all.contains(n) {
        let i = all.index_of(n);
        assert(all[i] == n);
    }
}

} // verus!
