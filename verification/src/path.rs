//! Unix file paths: byte strings whose segments are separated by slashes.

use vstd::prelude::*;
use vstd::string::*;
use vstd::utf8::*;

use crate::text::{pieces, run_len};

verus! {

/// The byte that separates the segments of a path.
pub const SLASH: u8 = 47;

/// The byte of which the segments for "this directory" and "parent directory" are made.
pub const DOT: u8 = 46;

/// The text that `String::from_utf8_lossy` of std gives for bytes that are not UTF-8.
pub uninterp spec fn lossy_text(bytes: Seq<u8>) -> Seq<char>;

/// `String::from_utf8_lossy` of std decodes valid UTF-8 to the text that it encodes. Where the
/// bytes are not UTF-8, the text is a function of the bytes, with replacement characters in it;
/// which one is not stated.
#[verifier::external_body]
fn from_utf8_lossy(bytes: &[u8]) -> (text: String)
    ensures
        text@ == (if valid_utf8(bytes@) {
            decode_utf8(bytes@)
        } else {
            lossy_text(bytes@)
        }),
{
    String::from_utf8_lossy(bytes).into_owned()
}

/// `String::from_utf8` of std gives a text exactly for valid UTF-8, and then the text that the
/// bytes encode.
#[verifier::external_body]
fn from_utf8(bytes: Vec<u8>) -> (text: Option<String>)
    ensures
        text is Some <==> valid_utf8(bytes@),
        text matches Some(t) ==> t@ == decode_utf8(bytes@),
{
    String::from_utf8(bytes).ok()
}

/// A path as the file system takes it.
#[derive(Debug)]
pub struct UnixPath {
    pub bytes: Vec<u8>,
}

impl View for UnixPath {
    type V = Seq<u8>;

    open spec fn view(&self) -> Seq<u8> {
        self.bytes@
    }
}

impl Clone for UnixPath {
    fn clone(&self) -> (copy: Self)
        ensures
            copy@ == self@,
    {
        let bytes: Vec<u8> = self.bytes.clone();
        assert(bytes@ =~= self.bytes@);
        UnixPath { bytes }
    }
}

/// The path that is there, if any.
pub open spec fn optional_path(path: Option<UnixPath>) -> Option<Seq<u8>> {
    match path {
        Some(p) => Some(p@),
        None => None,
    }
}

/// A path is absolute if it begins with a slash.
pub open spec fn absolute(path: Seq<u8>) -> bool {
    path.len() > 0 && path[0] == SLASH
}

/// `part` below `base`: an absolute part stands alone, and one slash separates the two otherwise,
/// unless `base` is empty or brings its own.
pub open spec fn joined(base: Seq<u8>, part: Seq<u8>) -> Seq<u8> {
    if absolute(part) {
        part
    } else if base.len() > 0 && base.last() != SLASH {
        base.push(SLASH) + part
    } else {
        base + part
    }
}

/// The path that a text names.
pub open spec fn path_of(text: Seq<char>) -> Seq<u8> {
    encode_utf8(text)
}

/// The text shown for a path: what its bytes encode, with replacements where they are not UTF-8.
pub open spec fn shown(path: Seq<u8>) -> Seq<char> {
    if valid_utf8(path) {
        decode_utf8(path)
    } else {
        lossy_text(path)
    }
}

/// The non-empty segments of a path.
pub open spec fn segments(path: Seq<u8>) -> Seq<Seq<u8>> {
    pieces(path, |b: u8| b == SLASH)
}

/// The segment for "this directory".
pub open spec fn this_dir() -> Seq<u8> {
    seq![DOT]
}

/// The segment for "parent directory".
pub open spec fn parent_dir() -> Seq<u8> {
    seq![DOT, DOT]
}

/// The components of a path: its non-empty segments without those for "this directory", of which
/// only one that opens a relative path counts.
pub open spec fn components(path: Seq<u8>) -> Seq<Seq<u8>> {
    let segs = segments(path);
    let counts = |seg: Seq<u8>| seg != this_dir();
    if !absolute(path) && segs.len() > 0 && segs[0] == this_dir() {
        seq![this_dir()] + segs.skip(1).filter(counts)
    } else {
        segs.filter(counts)
    }
}

/// Two paths are the same if both or neither are absolute and their components agree.
pub open spec fn same_path(a: Seq<u8>, b: Seq<u8>) -> bool {
    absolute(a) == absolute(b) && components(a) == components(b)
}

/// `path` is `dir` or lies in it, as the two are written: neither links nor segments for "parent
/// directory" are followed.
pub open spec fn within(dir: Seq<u8>, path: Seq<u8>) -> bool {
    absolute(path) == absolute(dir) && components(dir).is_prefix_of(components(path))
}

/// The last component of a path, where that is the name of something.
pub open spec fn file_name_of(path: Seq<u8>) -> Option<Seq<u8>> {
    let parts = components(path);
    if parts.len() == 0 || parts.last() == this_dir() || parts.last() == parent_dir() {
        None
    } else {
        Some(parts.last())
    }
}

/// The contents of a list of byte strings.
pub open spec fn byte_strings(list: Seq<Vec<u8>>) -> Seq<Seq<u8>> {
    list.map_values(|v: Vec<u8>| v@)
}

fn copy_bytes(bytes: &Vec<u8>, from: usize, to: usize) -> (part: Vec<u8>)
    requires
        from <= to <= bytes@.len(),
    ensures
        part@ == bytes@.subrange(from as int, to as int),
{
    let mut part: Vec<u8> = Vec::new();
    let mut i: usize = from;
    while i < to
        invariant
            from <= i <= to <= bytes@.len(),
            part@ == bytes@.subrange(from as int, i as int),
        decreases to - i,
    {
        part.push(bytes[i]);
        i = i + 1;
    }
    part
}

fn append_bytes(bytes: &mut Vec<u8>, more: &[u8])
    ensures
        final(bytes)@ == old(bytes)@ + more@,
{
    let ghost start = bytes@;
    let mut i: usize = 0;
    while i < more.len()
        invariant
            i <= more@.len(),
            bytes@ == start + more@.take(i as int),
        decreases more@.len() - i,
    {
        bytes.push(more[i]);
        i = i + 1;
    }
    assert(more@.take(i as int) == more@);
}

fn same_bytes(a: &Vec<u8>, b: &Vec<u8>) -> (same: bool)
    ensures
        same == (a@ == b@),
{
    if a.len() != b.len() {
        return false;
    }
    let mut i: usize = 0;
    while i < a.len()
        invariant
            a@.len() == b@.len(),
            i <= a@.len(),
            forall|j: int| 0 <= j < i ==> a@[j] == b@[j],
        decreases a@.len() - i,
    {
        if a[i] != b[i] {
            return false;
        }
        i = i + 1;
    }
    assert(a@ =~= b@);
    true
}

fn is_this_dir(seg: &Vec<u8>) -> (b: bool)
    ensures
        b == (seg@ == this_dir()),
{
    if seg.len() == 1 && seg[0] == DOT {
        assert(seg@ =~= this_dir());
        true
    } else {
        assert(this_dir().len() == 1 && this_dir()[0] == DOT);
        false
    }
}

fn is_parent_dir(seg: &Vec<u8>) -> (b: bool)
    ensures
        b == (seg@ == parent_dir()),
{
    if seg.len() == 2 && seg[0] == DOT && seg[1] == DOT {
        assert(seg@ =~= parent_dir());
        true
    } else {
        assert(parent_dir().len() == 2 && parent_dir()[0] == DOT && parent_dir()[1] == DOT);
        false
    }
}

impl UnixPath {
    /// The path that `text` names.
    pub fn new(text: &str) -> (path: UnixPath)
        ensures
            path@ == path_of(text@),
    {
        let mut bytes: Vec<u8> = Vec::new();
        append_bytes(&mut bytes, text.as_bytes());
        UnixPath { bytes }
    }

    /// Tells whether the path begins at the root of the file system.
    pub fn is_absolute(&self) -> (b: bool)
        ensures
            b == absolute(self@),
    {
        self.bytes.len() > 0 && self.bytes[0] == SLASH
    }

    /// The path of `part` below this path.
    pub fn join(&self, part: &str) -> (path: UnixPath)
        ensures
            path@ == joined(self@, path_of(part@)),
    {
        let tail: &[u8] = part.as_bytes();
        if tail.len() > 0 && tail[0] == SLASH {
            let mut bytes: Vec<u8> = Vec::new();
            append_bytes(&mut bytes, tail);
            return UnixPath { bytes };
        }
        let n: usize = self.bytes.len();
        let mut bytes: Vec<u8> = copy_bytes(&self.bytes, 0, n);
        assert(bytes@ =~= self@);
        if n > 0 && self.bytes[n - 1] != SLASH {
            bytes.push(SLASH);
        }
        append_bytes(&mut bytes, tail);
        UnixPath { bytes }
    }

    /// The text shown for the path.
    pub fn display(&self) -> (text: String)
        ensures
            text@ == shown(self@),
    {
        from_utf8_lossy(self.bytes.as_slice())
    }

    fn segments(&self) -> (segs: Vec<Vec<u8>>)
        ensures
            byte_strings(segs@) == segments(self@),
    {
        let bytes: &Vec<u8> = &self.bytes;
        let ghost path = self@;
        let ghost sep = |b: u8| b == SLASH;
        let mut segs: Vec<Vec<u8>> = Vec::new();
        let mut i: usize = 0;
        assert(path.skip(0) == path);
        assert(byte_strings(segs@) == Seq::<Seq<u8>>::empty());
        while i < bytes.len()
            invariant
                i <= bytes@.len(),
                bytes@ == path,
                sep == (|b: u8| b == SLASH),
                segments(path) == byte_strings(segs@) + pieces(path.skip(i as int), sep),
            decreases bytes@.len() - i,
        {
            let ghost rest = path.skip(i as int);
            if bytes[i] == SLASH {
                assert(rest.skip(1) == path.skip(i + 1));
                i = i + 1;
            } else {
                let start: usize = i;
                i = i + 1;
                assert(rest.skip(1) == path.skip(i as int));
                while i < bytes.len() && bytes[i] != SLASH
                    invariant
                        start < i <= bytes@.len(),
                        bytes@ == path,
                        sep == (|b: u8| b == SLASH),
                        run_len(path.skip(start + 1), sep) == i - start - 1 + run_len(
                            path.skip(i as int),
                            sep,
                        ),
                    decreases bytes@.len() - i,
                {
                    assert(path.skip(i as int).skip(1) == path.skip(i + 1));
                    i = i + 1;
                }
                let ghost n = run_len(rest.skip(1), sep) + 1;
                assert(n == i - start);
                assert(rest.take(n as int) == path.subrange(start as int, i as int));
                assert(rest.skip(n as int) == path.skip(i as int));
                let ghost before = byte_strings(segs@);
                let seg: Vec<u8> = copy_bytes(bytes, start, i);
                segs.push(seg);
                assert(byte_strings(segs@) == before + seq![rest.take(n as int)]);
            }
        }
        assert(path.skip(i as int).len() == 0);
        segs
    }

    fn components(&self) -> (parts: Vec<Vec<u8>>)
        ensures
            byte_strings(parts@) == components(self@),
    {
        let segs: Vec<Vec<u8>> = self.segments();
        let ghost list = segments(self@);
        let ghost counts = |seg: Seq<u8>| seg != this_dir();
        let mut parts: Vec<Vec<u8>> = Vec::new();
        let mut i: usize = 0;
        assert(forall|j: int| 0 <= j < list.len() ==> #[trigger] list[j] == segs@[j]@);
        if !self.is_absolute() && segs.len() > 0 && is_this_dir(&segs[0]) {
            let first: Vec<u8> = copy_bytes(&segs[0], 0, segs[0].len());
            assert(first@ =~= segs@[0]@);
            parts.push(first);
            i = 1;
        }
        let ghost start = i as int;
        let ghost head = byte_strings(parts@);
        assert(head =~= if start == 1 { seq![this_dir()] } else { Seq::empty() });
        assert(list.subrange(start, start).filter(counts) =~= Seq::empty()) by {
            reveal(Seq::filter);
        }
        while i < segs.len()
            invariant
                start <= i <= segs@.len(),
                0 <= start,
                byte_strings(segs@) == list,
                counts == (|seg: Seq<u8>| seg != this_dir()),
                byte_strings(parts@) == head + list.subrange(start, i as int).filter(counts),
            decreases segs@.len() - i,
        {
            proof {
                assert(list[i as int] == segs@[i as int]@);
                assert(list.subrange(start, i + 1) =~= list.subrange(start, i as int).push(
                    list[i as int],
                ));
                list.subrange(start, i as int).lemma_filter_push(list[i as int], counts);
            }
            if !is_this_dir(&segs[i]) {
                let ghost before = byte_strings(parts@);
                let seg: Vec<u8> = copy_bytes(&segs[i], 0, segs[i].len());
                assert(seg@ =~= segs@[i as int]@);
                parts.push(seg);
                assert(byte_strings(parts@) =~= before.push(list[i as int]));
            }
            i = i + 1;
        }
        assert(list.subrange(start, i as int) =~= list.skip(start));
        assert(list.skip(0) =~= list);
        parts
    }

    /// The last component of the path, where that is the name of something.
    pub fn file_name(&self) -> (name: Option<Vec<u8>>)
        ensures
            match name {
                Some(bytes) => file_name_of(self@) == Some(bytes@),
                None => file_name_of(self@) is None,
            },
    {
        let parts: Vec<Vec<u8>> = self.components();
        let ghost list = components(self@);
        let n: usize = parts.len();
        assert(list.len() == n);
        if n == 0 {
            return None;
        }
        assert(list[n - 1] == parts@[n - 1]@);
        if is_this_dir(&parts[n - 1]) || is_parent_dir(&parts[n - 1]) {
            return None;
        }
        let name: Vec<u8> = copy_bytes(&parts[n - 1], 0, parts[n - 1].len());
        assert(name@ =~= parts@[n - 1]@);
        Some(name)
    }

    /// The name of what the path leads to, where there is one and it is UTF-8.
    pub fn file_name_text(&self) -> (name: Option<String>)
        ensures
            match name {
                Some(text) => file_name_of(self@) == Some(path_of(text@)),
                None => file_name_of(self@) matches Some(bytes) ==> !valid_utf8(bytes),
            },
    {
        match self.file_name() {
            Some(bytes) => {
                proof {
                    if valid_utf8(bytes@) {
                        decode_utf8_encode_utf8(bytes@);
                    }
                }
                from_utf8(bytes)
            },
            None => None,
        }
    }

    /// Tells whether two paths are the same but for repeated slashes, slashes at the end and
    /// segments for "this directory" that do not count.
    pub fn same_as(&self, other: &UnixPath) -> (same: bool)
        ensures
            same == same_path(self@, other@),
    {
        if self.is_absolute() != other.is_absolute() {
            return false;
        }
        let a: Vec<Vec<u8>> = self.components();
        let b: Vec<Vec<u8>> = other.components();
        let ghost left = components(self@);
        let ghost right = components(other@);
        assert(left.len() == a@.len() && right.len() == b@.len());
        if a.len() != b.len() {
            return false;
        }
        let mut i: usize = 0;
        while i < a.len()
            invariant
                a@.len() == b@.len(),
                i <= a@.len(),
                byte_strings(a@) == left,
                byte_strings(b@) == right,
                left == components(self@),
                right == components(other@),
                forall|j: int| 0 <= j < i ==> left[j] == right[j],
            decreases a@.len() - i,
        {
            assert(left[i as int] == a@[i as int]@ && right[i as int] == b@[i as int]@);
            if !same_bytes(&a[i], &b[i]) {
                return false;
            }
            i = i + 1;
        }
        assert(left =~= right);
        true
    }
}

/// Paths are equal if they are the same.
impl PartialEq for UnixPath {
    fn eq(&self, other: &UnixPath) -> (same: bool) {
        self.same_as(other)
    }
}

impl Eq for UnixPath {

}

impl vstd::std_specs::cmp::PartialEqSpecImpl for UnixPath {
    open spec fn obeys_eq_spec() -> bool {
        true
    }

    open spec fn eq_spec(&self, other: &UnixPath) -> bool {
        same_path(self@, other@)
    }
}

/// The path of a text begins with a slash exactly if the text does.
pub proof fn lemma_path_of_absolute(text: Seq<char>)
    ensures
        absolute(path_of(text)) <==> text.len() > 0 && text[0] == '/',
{
    if text.len() > 0 {
        encode_utf8_first_scalar(text);
        let bytes = encode_utf8(text);
        let scalar = text[0] as u32;
        assert(codepoint_width_1(47) == 47) by (bit_vector);
        assert(leading_byte_width_1(47) == 47) by (bit_vector);
        assert(bytes == encode_scalar(scalar) + encode_utf8(text.drop_first()));
        assert(bytes[0] == encode_scalar(scalar)[0]);
        assert(bytes.len() > 0);
        if text[0] == '/' {
            assert(scalar == 47);
            assert(encode_scalar(scalar)[0] == 47);
        }
        if bytes[0] == 47 {
            assert(decode_first_scalar(bytes) == 47);
            char_u32_cast(text[0], 47);
        }
    } else {
        assert(encode_utf8(text).len() == 0);
    }
}

/// The path of a text of ASCII characters is made of their codes.
pub proof fn lemma_ascii_path(text: Seq<char>)
    requires
        forall|i: int| 0 <= i < text.len() ==> (#[trigger] text[i] as u32) < 128,
    ensures
        path_of(text) == text.map_values(|c: char| (c as u32) as u8),
    decreases text.len(),
{
    let bytes = text.map_values(|c: char| (c as u32) as u8);
    if text.len() == 0 {
        assert(path_of(text) =~= bytes);
    } else {
        let rest = text.drop_first();
        assert forall|i: int| 0 <= i < rest.len() implies (#[trigger] rest[i] as u32) < 128 by {
            assert(rest[i] == text[i + 1]);
        }
        lemma_ascii_path(rest);
        let scalar = text[0] as u32;
        assert(leading_byte_width_1(scalar) == scalar as u8) by (bit_vector)
            requires
                scalar < 128,
        ;
        assert(path_of(text) == encode_scalar(scalar) + path_of(rest));
        assert(encode_scalar(scalar) == seq![scalar as u8]);
        assert(bytes =~= seq![scalar as u8] + rest.map_values(|c: char| (c as u32) as u8));
    }
}

/// Paths of different texts differ.
pub proof fn lemma_path_of_injective(a: Seq<char>, b: Seq<char>)
    requires
        path_of(a) == path_of(b),
    ensures
        a == b,
{
    encode_utf8_decode_utf8(a);
    encode_utf8_decode_utf8(b);
}

/// A path that was made from a text is shown as that text.
pub proof fn law_shown_text(text: Seq<char>)
    ensures
        shown(path_of(text)) == text,
{
    encode_utf8_valid_utf8(text);
    encode_utf8_decode_utf8(text);
}

} // verus!
