//! What joining and comparing paths comes to.

use vstd::prelude::*;

use crate::entry::{
    hex_digit, hex_text, law_hex_text_is_injective, lemma_overrides_end, override_dir,
    overrides_under,
};
use crate::names::{entries_under, entry_root, lemma_entries_end, name_char, valid_name};
use crate::path::{
    absolute, components, joined, lemma_ascii_path, lemma_path_of_injective, path_of, same_path,
    segments, this_dir, SLASH,
};
use crate::text::{lemma_run_len, pieces, run_len};

verus! {

/// A run does not see what comes after a stop.
proof fn lemma_run_len_before_stop<T>(a: Seq<T>, b: Seq<T>, stop: spec_fn(T) -> bool, s: T)
    requires
        stop(s),
    ensures
        run_len(a.push(s) + b, stop) == run_len(a, stop),
    decreases a.len(),
{
    let whole = a.push(s) + b;
    if a.len() == 0 {
        assert(whole[0] == s);
    } else {
        assert(whole[0] == a[0]);
        if !stop(a[0]) {
            assert(whole.skip(1) =~= a.skip(1).push(s) + b);
            lemma_run_len_before_stop(a.skip(1), b, stop, s);
        }
    }
}

/// Pieces on both sides of a separator stay apart.
pub proof fn lemma_pieces_apart<T>(a: Seq<T>, b: Seq<T>, sep: spec_fn(T) -> bool, s: T)
    requires
        sep(s),
    ensures
        pieces(a.push(s) + b, sep) == pieces(a, sep) + pieces(b, sep),
    decreases a.len(),
{
    let whole = a.push(s) + b;
    if a.len() == 0 {
        assert(whole[0] == s);
        assert(whole.skip(1) =~= b);
        assert(pieces(a, sep) + pieces(b, sep) =~= pieces(b, sep));
    } else if sep(a[0]) {
        assert(whole[0] == a[0]);
        assert(whole.skip(1) =~= a.skip(1).push(s) + b);
        lemma_pieces_apart(a.skip(1), b, sep, s);
    } else {
        assert(whole[0] == a[0]);
        let n = run_len(a.skip(1), sep) + 1;
        lemma_run_len(a.skip(1), sep);
        assert(whole.skip(1) =~= a.skip(1).push(s) + b);
        lemma_run_len_before_stop(a.skip(1), b, sep, s);
        assert(whole.take(n as int) =~= a.take(n as int));
        assert(whole.skip(n as int) =~= a.skip(n as int).push(s) + b);
        lemma_pieces_apart(a.skip(n as int), b, sep, s);
        assert(seq![a.take(n as int)] + (pieces(a.skip(n as int), sep) + pieces(b, sep)) =~= (
        seq![a.take(n as int)] + pieces(a.skip(n as int), sep)) + pieces(b, sep));
    }
}

/// Without separators, a run takes everything.
proof fn lemma_run_len_all<T>(s: Seq<T>, stop: spec_fn(T) -> bool)
    requires
        forall|i: int| 0 <= i < s.len() ==> !stop(#[trigger] s[i]),
    ensures
        run_len(s, stop) == s.len(),
    decreases s.len(),
{
    if s.len() > 0 {
        let rest = s.skip(1);
        assert forall|i: int| 0 <= i < rest.len() implies !stop(#[trigger] rest[i]) by {
            assert(rest[i] == s[i + 1]);
        }
        assert(!stop(s[0]));
        lemma_run_len_all(rest, stop);
    }
}

/// Without separators, there is one piece, or none in nothing.
pub proof fn lemma_one_piece<T>(s: Seq<T>, sep: spec_fn(T) -> bool)
    requires
        forall|i: int| 0 <= i < s.len() ==> !sep(#[trigger] s[i]),
    ensures
        pieces(s, sep) == (if s.len() == 0 {
            Seq::empty()
        } else {
            seq![s]
        }),
{
    if s.len() > 0 {
        let rest = s.skip(1);
        assert forall|i: int| 0 <= i < rest.len() implies !sep(#[trigger] rest[i]) by {
            assert(rest[i] == s[i + 1]);
        }
        lemma_run_len_all(rest, sep);
        assert(!sep(s[0]));
        assert(s.take(s.len() as int) =~= s);
        assert(s.skip(s.len() as int) =~= Seq::empty());
        assert(seq![s] + pieces(s.skip(s.len() as int), sep) =~= seq![s]);
    }
}

/// A list that does not end in a separator has a piece.
proof fn lemma_some_piece<T>(s: Seq<T>, sep: spec_fn(T) -> bool)
    requires
        s.len() > 0,
        !sep(s.last()),
    ensures
        pieces(s, sep).len() > 0,
    decreases s.len(),
{
    if sep(s[0]) {
        assert(s.len() > 1);
        assert(s.skip(1).last() == s.last());
        lemma_some_piece(s.skip(1), sep);
    }
}

/// The components of what lies directly in a directory: those of the directory, and its name.
pub proof fn lemma_child_components(base: Seq<u8>, part: Seq<u8>)
    requires
        base.len() > 0,
        base.last() != SLASH,
        forall|i: int| 0 <= i < part.len() ==> #[trigger] part[i] != SLASH,
    ensures
        absolute(joined(base, part)) == absolute(base),
        components(joined(base, part)) == (if part.len() == 0 || part == this_dir() {
            components(base)
        } else {
            components(base).push(part)
        }),
{
    let sep = |b: u8| b == SLASH;
    let counts = |seg: Seq<u8>| seg != this_dir();
    let whole = joined(base, part);
    assert(whole == base.push(SLASH) + part);
    assert(whole[0] == base[0]);
    lemma_pieces_apart(base, part, sep, SLASH);
    lemma_one_piece(part, sep);
    lemma_some_piece(base, sep);
    let (old_segs, segs) = (segments(base), segments(whole));
    if part.len() == 0 {
        assert(segs =~= old_segs);
    } else {
        assert(segs =~= old_segs.push(part));
        assert(segs[0] == old_segs[0]);
        assert(segs.skip(1) =~= old_segs.skip(1).push(part));
        old_segs.lemma_filter_push(part, counts);
        old_segs.skip(1).lemma_filter_push(part, counts);
        if !absolute(base) && old_segs[0] == this_dir() {
            let kept = old_segs.skip(1).filter(counts);
            assert(seq![this_dir()] + kept.push(part) =~= (seq![this_dir()] + kept).push(part));
        }
    }
}

/// A text of characters that are neither slashes nor beyond ASCII holds no slash as a path.
pub proof fn lemma_no_slash(text: Seq<char>)
    requires
        forall|i: int| 0 <= i < text.len() ==> (#[trigger] text[i] as u32) < 128 && text[i] != '/',
    ensures
        forall|i: int| 0 <= i < path_of(text).len() ==> #[trigger] path_of(text)[i] != SLASH,
        path_of(text).len() == text.len(),
{
    lemma_ascii_path(text);
    assert forall|i: int| 0 <= i < path_of(text).len() implies #[trigger] path_of(text)[i]
        != SLASH by {
        assert(path_of(text)[i] == (text[i] as u32) as u8);
        assert((text[i] as u32) < 128 && text[i] != '/');
        if text[i] as u32 == 47 {
            vstd::utf8::char_u32_cast(text[i], 47);
        }
    }
}

/// The paths of entries of different names differ in more than how they are written. They are taken
/// as they stand: a name that is `..` is not followed.
pub proof fn law_entries_are_apart(root: Seq<u8>, a: Seq<char>, b: Seq<char>)
    requires
        valid_name(a),
        valid_name(b),
        same_path(entry_root(root, a), entry_root(root, b)),
    ensures
        a == b,
{
    let base = entries_under(root);
    lemma_entries_end(root);
    assert forall|i: int| 0 <= i < a.len() implies (#[trigger] a[i] as u32) < 128 && a[i] != '/' by {
        assert(name_char(a[i]));
    }
    assert forall|i: int| 0 <= i < b.len() implies (#[trigger] b[i] as u32) < 128 && b[i] != '/' by {
        assert(name_char(b[i]));
    }
    lemma_no_slash(a);
    lemma_no_slash(b);
    lemma_child_components(base, path_of(a));
    lemma_child_components(base, path_of(b));
    let parts = components(base);
    assert(parts.push(path_of(a)).len() == parts.len() + 1);
    assert(parts.push(path_of(b)).len() == parts.len() + 1);
    if path_of(a) != this_dir() && path_of(b) != this_dir() {
        assert(parts.push(path_of(a)).last() == parts.push(path_of(b)).last());
    }
    lemma_path_of_injective(a, b);
}

/// The paths of overrides for different directories differ in more than how they are written.
pub proof fn law_overrides_are_apart(root: Seq<u8>, a: Seq<u8>, b: Seq<u8>)
    requires
        same_path(override_dir(root, a), override_dir(root, b)),
    ensures
        a == b,
{
    let base = overrides_under(root);
    lemma_overrides_end(root);
    let (x, y) = (hex_text(a), hex_text(b));
    lemma_hex_chars(a);
    lemma_hex_chars(b);
    lemma_no_slash(x);
    lemma_no_slash(y);
    lemma_child_components(base, path_of(x));
    lemma_child_components(base, path_of(y));
    let parts = components(base);
    assert(path_of(x) != this_dir() && path_of(y) != this_dir()) by {
        assert(x.len() == 2 * a.len() && y.len() == 2 * b.len());
        assert(this_dir().len() == 1);
    }
    assert(parts.push(path_of(x)).len() == parts.len() + 1);
    assert(parts.push(path_of(y)).len() == parts.len() + 1);
    if a.len() == 0 || b.len() == 0 {
        assert(path_of(x) =~= path_of(y));
    } else {
        assert(parts.push(path_of(x)).last() == parts.push(path_of(y)).last());
    }
    lemma_path_of_injective(x, y);
    law_hex_text_is_injective(a, b);
}

/// Hexadecimal digits are no slashes.
pub proof fn lemma_hex_chars(bytes: Seq<u8>)
    ensures
        forall|i: int|
            0 <= i < hex_text(bytes).len() ==> (#[trigger] hex_text(bytes)[i] as u32) < 128
                && hex_text(bytes)[i] != '/',
{
    assert forall|i: int| 0 <= i < hex_text(bytes).len() implies (#[trigger] hex_text(bytes)[i] as u32)
        < 128 && hex_text(bytes)[i] != '/' by {
        let byte = bytes[i / 2];
        assert(hex_text(bytes)[i] == hex_digit(byte as int / 16) || hex_text(bytes)[i] == hex_digit(
            byte as int % 16,
        ));
    }
}

} // verus!
