//! Turning a logical file path into a Rust identifier.
use vstd::prelude::*;
use crate::chars::{char_views, extend_chars, join_chars, replace_char, replace_chars, split_chars, split_on, lemma_split_on_nonempty};
use crate::text::{alphabetic, chars_of, char_to_uppercase, is_alphabetic, join, string_of, uppercase_of};

verus! {

/// The characters that separate words inside one path segment.
pub open spec fn word_separators() -> Seq<char> {
    seq!['-', '_', ' ']
}

/// The middle dot that stands for `.` in identifiers.
pub open spec fn middle_dot() -> char {
    '\u{30FB}'
}

/// The character that stands for `/` between path segments in identifiers.
pub open spec fn segment_joiner() -> char {
    '\u{30CE}'
}

/// The words concatenated in PascalCase: each non-empty word contributes the
/// uppercase mapping of its first character followed by the rest of it unchanged;
/// empty words contribute nothing.
pub open spec fn pascal_case(words: Seq<Seq<char>>) -> Seq<char>
    decreases words.len(),
{
    if words.len() == 0 {
        Seq::empty()
    } else {
        let w = words.last();
        pascal_case(words.drop_last()) + if w.len() == 0 {
            Seq::<char>::empty()
        } else {
            uppercase_of(w[0]) + w.drop_first()
        }
    }
}

/// `x` if it starts with `_` or an alphabetic character; `_` if it is empty;
/// otherwise `x` with `_` put in front.
pub open spec fn with_valid_start(x: Seq<char>) -> Seq<char> {
    if x.len() == 0 {
        seq!['_']
    } else if x[0] == '_' || alphabetic(x[0]) {
        x
    } else {
        seq!['_'] + x
    }
}

/// One path segment as an identifier part: `&` becomes `And`, `.` becomes the
/// middle dot, the words between `-`, `_` and ` ` are put in PascalCase, and the
/// start is made valid.
pub open spec fn ident_segment(part: Seq<char>) -> Seq<char> {
    let replaced = replace_char(replace_char(part, '&', seq!['A', 'n', 'd']), '.', seq![middle_dot()]);
    with_valid_start(pascal_case(split_on(replaced, word_separators())))
}

/// The identifier for a logical path: its `/`-separated segments each turned into
/// an identifier part, joined by the segment joiner, with a valid start.
pub open spec fn valid_ident(s: Seq<char>) -> Seq<char> {
    let segments = split_on(s, seq!['/']).map_values(|p: Seq<char>| ident_segment(p));
    with_valid_start(join(segments, seq![segment_joiner()]))
}

fn pascal_case_of(words: &Vec<Vec<char>>) -> (res: Vec<char>)
    ensures
        res@ == pascal_case(char_views(words@)),
{
    let mut out: Vec<char> = Vec::new();
    let mut i: usize = 0;
    while i < words.len()
        invariant
            i <= words.len(),
            out@ == pascal_case(char_views(words@).take(i as int)),
        decreases words.len() - i,
    {
        let w = &words[i];
        let ghost before = out@;
        proof {
            assert(char_views(words@).take(i + 1).drop_last() =~= char_views(words@).take(i as int));
            assert(char_views(words@).take(i + 1).last() == w@);
        }
        if w.len() > 0 {
            let up = char_to_uppercase(w[0]);
            let up_chars = chars_of(up.as_str());
            extend_chars(&mut out, &up_chars);
            let mut j: usize = 1;
            while j < w.len()
                invariant
                    1 <= j <= w.len(),
                    out@ == before + uppercase_of(w@[0]) + w@.subrange(1, j as int),
                decreases w.len() - j,
            {
                out.push(w[j]);
                j += 1;
                assert(out@ =~= before + uppercase_of(w@[0]) + w@.subrange(1, j as int));
            }
            assert(w@.subrange(1, w.len() as int) =~= w@.drop_first());
        } else {
            assert(out@ =~= before + Seq::<char>::empty());
        }
        i += 1;
    }
    assert(char_views(words@).take(words.len() as int) =~= char_views(words@));
    out
}

fn valid_start(x: Vec<char>) -> (res: Vec<char>)
    ensures
        res@ == with_valid_start(x@),
{
    if x.len() == 0 {
        let mut r: Vec<char> = Vec::new();
        r.push('_');
        assert(r@ =~= seq!['_']);
        r
    } else if x[0] == '_' || is_alphabetic(x[0]) {
        x
    } else {
        let mut r = x;
        r.insert(0, '_');
        assert(r@ =~= seq!['_'] + x@);
        r
    }
}

fn segment_ident(part: &Vec<char>) -> (res: Vec<char>)
    ensures
        res@ == ident_segment(part@),
{
    let and = vec!['A', 'n', 'd'];
    let dot = vec!['\u{30FB}'];
    let seps = vec!['-', '_', ' '];
    assert(and@ =~= seq!['A', 'n', 'd']);
    assert(dot@ =~= seq![middle_dot()]);
    assert(seps@ =~= word_separators());
    let step = replace_chars(part, '&', &and);
    let replaced = replace_chars(&step, '.', &dot);
    let words = split_chars(&replaced, &seps);
    let pascal = pascal_case_of(&words);
    valid_start(pascal)
}

/// The identifier for a logical path such as `icons/arrow-left.svg`
/// (which becomes `IconsノArrowLeft・svg`).
pub fn valid_rust_ident(s: &str) -> (res: String)
    ensures
        res@ == valid_ident(s@),
{
    let cs = chars_of(s);
    let slash = vec!['/'];
    assert(slash@ =~= seq!['/']);
    let parts = split_chars(&cs, &slash);
    let ghost wanted = split_on(s@, seq!['/']).map_values(|p: Seq<char>| ident_segment(p));
    let mut segments: Vec<Vec<char>> = Vec::new();
    let mut i: usize = 0;
    while i < parts.len()
        invariant
            i <= parts.len(),
            char_views(parts@) == split_on(s@, seq!['/']),
            wanted == split_on(s@, seq!['/']).map_values(|p: Seq<char>| ident_segment(p)),
            char_views(segments@) == wanted.take(i as int),
        decreases parts.len() - i,
    {
        let seg = segment_ident(&parts[i]);
        let ghost before = char_views(segments@);
        let ghost seg_view = seg@;
        segments.push(seg);
        proof {
            assert(char_views(parts@)[i as int] == parts@[i as int]@);
            assert(char_views(segments@) =~= before.push(seg_view));
            assert(wanted.take(i + 1) =~= wanted.take(i as int).push(wanted[i as int]));
        }
        i += 1;
    }
    assert(wanted.take(parts.len() as int) =~= wanted);
    let joiner = vec!['\u{30CE}'];
    assert(joiner@ =~= seq![segment_joiner()]);
    let joined = join_chars(&segments, &joiner);
    let fin = valid_start(joined);
    string_of(&fin)
}

/// A valid start is never empty and begins with `_` or an alphabetic character.
pub proof fn lemma_with_valid_start(x: Seq<char>)
    ensures
        with_valid_start(x).len() > 0,
        with_valid_start(x)[0] == '_' || alphabetic(with_valid_start(x)[0]),
        x.len() > 0 && (x[0] == '_' || alphabetic(x[0])) ==> with_valid_start(x) == x,
{
}

/// Joining keeps the first character of the first part.
proof fn lemma_join_first(parts: Seq<Seq<char>>, sep: Seq<char>)
    requires
        parts.len() >= 1,
        parts[0].len() > 0,
    ensures
        join(parts, sep).len() > 0,
        join(parts, sep)[0] == parts[0][0],
    decreases parts.len(),
{
    if parts.len() > 1 {
        lemma_join_first(parts.drop_last(), sep);
    }
}

/// The identifier made for any path is never empty and starts with `_` or an
/// alphabetic character; the guard on the whole joined identifier never has to
/// add anything, because every segment already starts validly.
pub proof fn lemma_valid_ident_start(s: Seq<char>)
    ensures
        valid_ident(s).len() > 0,
        valid_ident(s)[0] == '_' || alphabetic(valid_ident(s)[0]),
        valid_ident(s) == join(
            split_on(s, seq!['/']).map_values(|p: Seq<char>| ident_segment(p)),
            seq![segment_joiner()],
        ),
{
    let segments = split_on(s, seq!['/']).map_values(|p: Seq<char>| ident_segment(p));
    lemma_split_on_nonempty(s, seq!['/']);
    let first = split_on(s, seq!['/'])[0];
    let replaced = replace_char(replace_char(first, '&', seq!['A', 'n', 'd']), '.', seq![middle_dot()]);
    lemma_with_valid_start(pascal_case(split_on(replaced, word_separators())));
    assert(segments[0] == ident_segment(first));
    lemma_join_first(segments, seq![segment_joiner()]);
    lemma_with_valid_start(join(segments, seq![segment_joiner()]));
}

/// Conversion of a path-like string into a valid Rust identifier. An implementor
/// supplies the text to convert (as `AsRef<str>` does); the conversion itself is
/// provided.
pub trait ToValidIdent {
    /// The text that the conversion reads.
    spec fn ident_source(&self) -> Seq<char>;

    /// The text to convert.
    fn as_ident_source(&self) -> (res: &str)
        ensures
            res@ == self.ident_source(),
    ;

    /// The identifier for this path: `/`-separated segments in PascalCase joined by
    /// `ノ`, `&` written `And`, `.` written `・`, and `_` put in front of any part that
    /// would not start with `_` or a letter.
    fn to_valid_rust_ident_with_no(&self) -> (res: String)
        ensures
            res@ == valid_ident(self.ident_source()),
    {
        valid_rust_ident(self.as_ident_source())
    }
}

impl ToValidIdent for str {
    open spec fn ident_source(&self) -> Seq<char> {
        self@
    }

    fn as_ident_source(&self) -> (res: &str) {
        self
    }
}

} // verus!
