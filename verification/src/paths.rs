//! The path enum: which files and directories become variants, under which
//! identifiers, in which order.
use vstd::prelude::*;
use crate::chars::{char_views, split_chars, split_on};
use crate::ident::{valid_ident, valid_rust_ident};
use crate::order::{PathVariant, sort_by_ident, sorted_by_ident, with_ident};
use crate::text::{chars_of, same_text, ends_with, has_suffix, is_whitespace, string_of, views, white_space};

verus! {

/// What a directory entry is.
pub enum EntryKind {
    /// A directory (following symbolic links).
    Dir,
    /// A regular file (following symbolic links).
    File,
    /// Anything else.
    Other,
}

/// One entry met while walking the root directory, depth first, each directory's
/// entry coming before the entries inside it.
pub struct PathEntry {
    /// The relative path of the directory that holds the entry (empty at the root).
    pub parent: String,
    /// The entry's file name.
    pub name: String,
    /// What the entry is.
    pub kind: EntryKind,
}

/// `b` below `a`: `b` alone when `a` is empty, else `a/b`.
pub open spec fn joined_path(a: Seq<char>, b: Seq<char>) -> Seq<char> {
    if a.len() == 0 {
        b
    } else {
        a + seq!['/'] + b
    }
}

/// Joins `name` below `parent` (`name` alone when `parent` is empty).
pub fn rel_path(parent: &str, name: &str) -> (res: String)
    ensures
        res@ == joined_path(parent@, name@),
{
    if parent.is_empty() {
        name.to_owned()
    } else {
        let mut r = parent.to_owned();
        r.push('/');
        r.append(name);
        r
    }
}

/// The file name ends with `.` followed by one of the extensions.
pub open spec fn allowed_ext(name: Seq<char>, exts: Seq<Seq<char>>) -> bool {
    exists|i: int| 0 <= i < exts.len() && has_suffix(name, seq!['.'] + #[trigger] exts[i])
}

/// Whether the file name ends with `.ext` for one of the allowed extensions.
pub fn has_allowed_extension(file_name: &str, allowed_exts: &Vec<String>) -> (res: bool)
    ensures
        res == allowed_ext(file_name@, views(allowed_exts@)),
{
    let mut i: usize = 0;
    while i < allowed_exts.len()
        invariant
            i <= allowed_exts.len(),
            forall|j: int| 0 <= j < i ==> !has_suffix(file_name@, seq!['.'] + #[trigger] views(allowed_exts@)[j]),
        decreases allowed_exts.len() - i,
    {
        let mut dotted = String::new();
        dotted.push('.');
        dotted.append(allowed_exts[i].as_str());
        assert(dotted@ =~= seq!['.'] + views(allowed_exts@)[i as int]);
        if ends_with(file_name, dotted.as_str()) {
            return true;
        }
        i += 1;
    }
    false
}

/// The logical path that an entry contributes, if any: every directory, and every
/// file with an allowed extension, under the logical prefix.
pub open spec fn candidate(e: PathEntry, exts: Seq<Seq<char>>, prefix: Seq<char>) -> Option<Seq<char>> {
    let logical = joined_path(prefix, joined_path(e.parent@, e.name@));
    match e.kind {
        EntryKind::Dir => Some(logical),
        EntryKind::File => if allowed_ext(e.name@, exts) {
            Some(logical)
        } else {
            None
        },
        EntryKind::Other => None,
    }
}

/// A variant as a pair of identifier and logical path.
pub open spec fn variant_views(s: Seq<PathVariant>) -> Seq<(Seq<char>, Seq<char>)> {
    s.map_values(|v: PathVariant| (v.ident@, v.path@))
}

/// The variants and the seen paths after visiting `entries` in order, starting from
/// `vars` and `seen`: each candidate path not seen before adds the variant
/// `(valid_ident(path), path)` and is marked seen.
pub open spec fn collected(
    entries: Seq<PathEntry>,
    exts: Seq<Seq<char>>,
    prefix: Seq<char>,
    seen: Seq<Seq<char>>,
    vars: Seq<(Seq<char>, Seq<char>)>,
) -> (Seq<(Seq<char>, Seq<char>)>, Seq<Seq<char>>)
    decreases entries.len(),
{
    if entries.len() == 0 {
        (vars, seen)
    } else {
        let (v, s) = collected(entries.drop_last(), exts, prefix, seen, vars);
        match candidate(entries.last(), exts, prefix) {
            Some(p) => if s.contains(p) {
                (v, s)
            } else {
                (v.push((valid_ident(p), p)), s.push(p))
            },
            None => (v, s),
        }
    }
}

/// Whether `p` is among the strings of `seen`.
fn contains_text(seen: &Vec<String>, p: &String) -> (res: bool)
    ensures
        res == views(seen@).contains(p@),
{
    let mut i: usize = 0;
    while i < seen.len()
        invariant
            i <= seen.len(),
            forall|j: int| 0 <= j < i ==> views(seen@)[j] != p@,
        decreases seen.len() - i,
    {
        if seen[i] == *p {
            assert(views(seen@)[i as int] == p@);
            return true;
        }
        i += 1;
    }
    false
}

/// Visits the entries in order and adds a variant for every directory and every file
/// with an allowed extension whose logical path (under `logical_prefix`) has not been
/// seen yet; each added path is marked seen.
/// The seen paths are held in a `Vec` in which no path occurs twice
/// (`lemma_collected_distinct`).
pub fn collect_paths(
    entries: &Vec<PathEntry>,
    allowed_exts: &Vec<String>,
    variants: &mut Vec<PathVariant>,
    logical_prefix: &str,
    seen: &mut Vec<String>,
)
    ensures
        (variant_views(final(variants)@), views(final(seen)@)) == collected(
            entries@,
            views(allowed_exts@),
            logical_prefix@,
            views(old(seen)@),
            variant_views(old(variants)@),
        ),
{
    let ghost exts = views(allowed_exts@);
    let ghost seen0 = views(seen@);
    let ghost vars0 = variant_views(variants@);
    let mut i: usize = 0;
    while i < entries.len()
        invariant
            i <= entries.len(),
            exts == views(allowed_exts@),
            (variant_views(variants@), views(seen@)) == collected(entries@.take(i as int), exts, logical_prefix@, seen0, vars0),
        decreases entries.len() - i,
    {
        let e = &entries[i];
        proof {
            assert(entries@.take(i + 1).drop_last() =~= entries@.take(i as int));
            assert(entries@.take(i + 1).last() == *e);
        }
        let rel = rel_path(e.parent.as_str(), e.name.as_str());
        let logical = rel_path(logical_prefix, rel.as_str());
        let wanted = match e.kind {
            EntryKind::Dir => true,
            EntryKind::File => has_allowed_extension(e.name.as_str(), allowed_exts),
            EntryKind::Other => false,
        };
        if wanted && !contains_text(seen, &logical) {
            let ident = valid_rust_ident(logical.as_str());
            let ghost old_vars = variant_views(variants@);
            let ghost old_seen = views(seen@);
            let path = logical.clone();
            variants.push(PathVariant { ident, path });
            seen.push(logical);
            assert(variant_views(variants@) =~= old_vars.push((valid_ident(logical@), logical@)));
            assert(views(seen@) =~= old_seen.push(logical@));
        }
        i += 1;
    }
    assert(entries@.take(entries.len() as int) =~= entries@);
}

/// Under `collected`, seen paths never repeat, every variant's path is one of them in
/// the same order, and every variant's identifier is the one made from its path,
/// provided all of this held at the start.
pub proof fn lemma_collected_distinct(
    entries: Seq<PathEntry>,
    exts: Seq<Seq<char>>,
    prefix: Seq<char>,
    seen: Seq<Seq<char>>,
    vars: Seq<(Seq<char>, Seq<char>)>,
)
    requires
        seen.no_duplicates(),
        vars.map_values(|v: (Seq<char>, Seq<char>)| v.1) == seen,
        forall|i: int| 0 <= i < vars.len() ==> #[trigger] vars[i].0 == valid_ident(vars[i].1),
    ensures
        ({
            let (v2, s2) = collected(entries, exts, prefix, seen, vars);
            &&& s2.no_duplicates()
            &&& v2.map_values(|v: (Seq<char>, Seq<char>)| v.1) == s2
            &&& forall|i: int| 0 <= i < v2.len() ==> #[trigger] v2[i].0 == valid_ident(v2[i].1)
            &&& v2.len() >= vars.len()
            &&& v2.take(vars.len() as int) == vars
        }),
    decreases entries.len(),
{
    if entries.len() > 0 {
        lemma_collected_distinct(entries.drop_last(), exts, prefix, seen, vars);
        let (v, s) = collected(entries.drop_last(), exts, prefix, seen, vars);
        if let Some(p) = candidate(entries.last(), exts, prefix) {
            if !s.contains(p) {
                let v2 = v.push((valid_ident(p), p));
                assert(v2.map_values(|v: (Seq<char>, Seq<char>)| v.1) =~= v.map_values(|v: (Seq<char>, Seq<char>)| v.1).push(p));
                assert(v2.take(vars.len() as int) =~= v.take(vars.len() as int));
                assert forall|i: int, j: int| 0 <= i < s.push(p).len() && 0 <= j < s.push(p).len() && i != j
                    implies s.push(p)[i] != s.push(p)[j] by {
                    if i == s.len() {
                        assert(s[j] == s.push(p)[j]);
                    } else if j == s.len() {
                        assert(s[i] == s.push(p)[i]);
                    }
                }
            }
        }
    } else {
        assert(vars.take(vars.len() as int) =~= vars);
    }
}

} // verus!

verus! {

/// `s` without its leading white space.
pub open spec fn trim_start(s: Seq<char>) -> Seq<char>
    decreases s.len(),
{
    if s.len() > 0 && white_space(s[0]) {
        trim_start(s.drop_first())
    } else {
        s
    }
}

/// `s` without its trailing white space.
pub open spec fn trim_end(s: Seq<char>) -> Seq<char>
    decreases s.len(),
{
    if s.len() > 0 && white_space(s.last()) {
        trim_end(s.drop_last())
    } else {
        s
    }
}

/// `s` without leading and trailing white space, as `str::trim` gives it.
pub open spec fn trimmed(s: Seq<char>) -> Seq<char> {
    trim_end(trim_start(s))
}

/// The index of the first character of `s` that is not white space (or its length).
fn leading_space_end(s: &Vec<char>) -> (i: usize)
    ensures
        i <= s.len(),
        trim_start(s@) == s@.skip(i as int),
{
    let mut i: usize = 0;
    assert(s@.skip(0) =~= s@);
    while i < s.len() && is_whitespace(s[i])
        invariant
            i <= s.len(),
            trim_start(s@) == trim_start(s@.skip(i as int)),
        decreases s.len() - i,
    {
        proof {
            let rest = s@.skip(i as int);
            assert(rest[0] == s@[i as int]);
            assert(rest.drop_first() =~= s@.skip(i + 1));
        }
        i += 1;
    }
    proof {
        let rest = s@.skip(i as int);
        if i < s.len() {
            assert(rest[0] == s@[i as int]);
        }
    }
    i
}

/// The end of `s[from..]` without its trailing white space.
fn trailing_space_start(s: &Vec<char>, from: usize) -> (j: usize)
    requires
        from <= s.len(),
    ensures
        from <= j <= s.len(),
        trim_end(s@.skip(from as int)) == s@.subrange(from as int, j as int),
{
    let mut j: usize = s.len();
    assert(s@.subrange(from as int, j as int) =~= s@.skip(from as int));
    while j > from && is_whitespace(s[j - 1])
        invariant
            from <= j <= s.len(),
            trim_end(s@.skip(from as int)) == trim_end(s@.subrange(from as int, j as int)),
        decreases j,
    {
        proof {
            let part = s@.subrange(from as int, j as int);
            assert(part.last() == s@[j - 1]);
            assert(part.drop_last() =~= s@.subrange(from as int, j - 1));
        }
        j -= 1;
    }
    proof {
        let part = s@.subrange(from as int, j as int);
        if j > from {
            assert(part.last() == s@[j - 1]);
        }
    }
    j
}

/// The characters `s[from..to]`.
fn copy_range(s: &Vec<char>, from: usize, to: usize) -> (res: Vec<char>)
    requires
        from <= to <= s.len(),
    ensures
        res@ == s@.subrange(from as int, to as int),
{
    let mut out: Vec<char> = Vec::new();
    let mut k: usize = from;
    while k < to
        invariant
            from <= k <= to,
            to <= s.len(),
            out@ == s@.subrange(from as int, k as int),
        decreases to - k,
    {
        out.push(s[k]);
        k += 1;
        assert(out@ =~= s@.subrange(from as int, k as int));
    }
    out
}

/// Removes leading and trailing white space.
pub fn trim_chars(s: &Vec<char>) -> (res: Vec<char>)
    ensures
        res@ == trimmed(s@),
{
    let i = leading_space_end(s);
    let j = trailing_space_start(s, i);
    copy_range(s, i, j)
}

/// The predicate "the piece is not empty".
pub open spec fn non_empty() -> spec_fn(Seq<char>) -> bool {
    |w: Seq<char>| w.len() > 0
}

/// The extensions listed in an `ext = "..."` value: the comma-separated pieces,
/// trimmed, with the empty ones left out.
pub open spec fn ext_list(raw: Seq<char>) -> Seq<Seq<char>> {
    split_on(raw, seq![',']).map_values(|w: Seq<char>| trimmed(w)).filter(non_empty())
}

/// Splits an `ext` value such as `"svg, png"` into its extensions.
pub fn parse_ext_list(raw: &str) -> (res: Vec<String>)
    ensures
        views(res@) == ext_list(raw@),
{
    let cs = chars_of(raw);
    let comma = vec![','];
    assert(comma@ =~= seq![',']);
    let pieces = split_chars(&cs, &comma);
    let ghost mapped = split_on(raw@, seq![',']).map_values(|w: Seq<char>| trimmed(w));
    let mut out: Vec<String> = Vec::new();
    let mut i: usize = 0;
    proof {
        reveal(Seq::filter);
        assert(mapped.take(0).filter(non_empty()) =~= Seq::<Seq<char>>::empty());
        assert(views(out@) =~= Seq::<Seq<char>>::empty());
    }
    while i < pieces.len()
        invariant
            i <= pieces.len(),
            char_views(pieces@) == split_on(raw@, seq![',']),
            mapped == split_on(raw@, seq![',']).map_values(|w: Seq<char>| trimmed(w)),
            views(out@) == mapped.take(i as int).filter(non_empty()),
        decreases pieces.len() - i,
    {
        let t = trim_chars(&pieces[i]);
        proof {
            reveal(Seq::filter);
            assert(char_views(pieces@)[i as int] == pieces@[i as int]@);
            assert(mapped.take(i + 1).drop_last() =~= mapped.take(i as int));
            assert(mapped.take(i + 1).last() == t@);
        }
        if t.len() > 0 {
            let ghost before = views(out@);
            let s = string_of(&t);
            out.push(s);
            assert(views(out@) =~= before.push(t@));
        }
        i += 1;
    }
    assert(mapped.take(pieces.len() as int) =~= mapped);
    out
}

/// The root directory to walk: the `path` option if given, else `.`.
pub fn resolve_root(path: Option<String>) -> (res: String)
    ensures
        res@ == match path {
            Some(p) => p@,
            None => seq!['.'],
        },
{
    match path {
        Some(p) => p,
        None => {
            let mut r = String::new();
            r.push('.');
            r
        },
    }
}

/// The allowed extensions: the `ext` option if given, else just `svg`.
pub fn resolve_exts(ext: Option<Vec<String>>) -> (res: Vec<String>)
    ensures
        views(res@) == match ext {
            Some(e) => views(e@),
            None => seq![seq!['s', 'v', 'g']],
        },
{
    match ext {
        Some(e) => e,
        None => {
            let mut svg = String::new();
            svg.push('s');
            svg.push('v');
            svg.push('g');
            assert(svg@ =~= seq!['s', 'v', 'g']);
            let mut r: Vec<String> = Vec::new();
            r.push(svg);
            assert(views(r@) =~= seq![seq!['s', 'v', 'g']]);
            r
        },
    }
}

/// The predicate "the pair's identifier is `k`".
pub open spec fn pair_ident_is(k: Seq<char>) -> spec_fn((Seq<char>, Seq<char>)) -> bool {
    |v: (Seq<char>, Seq<char>)| v.0 == k
}

/// `res` is `src` sorted by identifier, with pairs of equal identifiers in the order
/// they have in `src`.
pub open spec fn stable_sorted_of(
    res: Seq<(Seq<char>, Seq<char>)>,
    src: Seq<(Seq<char>, Seq<char>)>,
) -> bool {
    &&& forall|i: int, j: int| 0 <= i < j < res.len() ==> crate::order::lex_le(res[i].0, res[j].0)
    &&& forall|k: Seq<char>| #[trigger] res.filter(pair_ident_is(k)) == src.filter(pair_ident_is(k))
}

proof fn lemma_views_filter(s: Seq<PathVariant>, k: Seq<char>)
    ensures
        variant_views(with_ident(s, k)) == variant_views(s).filter(pair_ident_is(k)),
    decreases s.len(),
{
    reveal(Seq::filter);
    if s.len() > 0 {
        lemma_views_filter(s.drop_last(), k);
        assert(variant_views(s).drop_last() =~= variant_views(s.drop_last()));
        if s.last().ident@ == k {
            assert(variant_views(with_ident(s, k)) =~= variant_views(with_ident(s.drop_last(), k)).push(
                (s.last().ident@, s.last().path@)));
        }
    } else {
        assert(variant_views(with_ident(s, k)) =~= variant_views(s).filter(pair_ident_is(k)));
    }
}

/// The variants of the path enum for the entries met while walking the root: every
/// directory and every file with an allowed extension, once per logical path (under
/// `prefix`), named by `valid_ident`, sorted by identifier with ties in walk order.
pub fn path2enum_app(entries: &Vec<PathEntry>, exts: &Vec<String>, prefix: &str) -> (res: Vec<PathVariant>)
    ensures
        stable_sorted_of(
            variant_views(res@),
            collected(entries@, views(exts@), prefix@, Seq::empty(), Seq::empty()).0,
        ),
{
    let mut variants: Vec<PathVariant> = Vec::new();
    let mut seen: Vec<String> = Vec::new();
    assert(views(seen@) =~= Seq::<Seq<char>>::empty());
    assert(variant_views(variants@) =~= Seq::<(Seq<char>, Seq<char>)>::empty());
    collect_paths(entries, exts, &mut variants, prefix, &mut seen);
    let ghost unsorted = variants@;
    let res = sort_by_ident(variants);
    proof {
        assert forall|k: Seq<char>| #[trigger] variant_views(res@).filter(pair_ident_is(k))
            == variant_views(unsorted).filter(pair_ident_is(k)) by {
            lemma_views_filter(res@, k);
            lemma_views_filter(unsorted, k);
            assert(with_ident(res@, k) == with_ident(unsorted, k));
        }
        assert(sorted_by_ident(res@));
    }
    res
}

} // verus!

verus! {

proof fn lemma_trim_start(s: Seq<char>)
    ensures
        trim_start(s).len() > 0 ==> !white_space(trim_start(s)[0]),
    decreases s.len(),
{
    if s.len() > 0 && white_space(s[0]) {
        lemma_trim_start(s.drop_first());
    }
}

proof fn lemma_trim_end(s: Seq<char>)
    ensures
        trim_end(s).len() <= s.len(),
        trim_end(s) == s.take(trim_end(s).len() as int),
        trim_end(s).len() > 0 ==> !white_space(trim_end(s).last()),
    decreases s.len(),
{
    if s.len() > 0 && white_space(s.last()) {
        lemma_trim_end(s.drop_last());
        assert(s.drop_last().take(trim_end(s).len() as int) =~= s.take(trim_end(s).len() as int));
    } else {
        assert(s.take(s.len() as int) =~= s);
    }
}

/// A trimmed text starts and ends with a character that is not white space.
pub proof fn lemma_trimmed(s: Seq<char>)
    ensures
        trimmed(s).len() > 0 ==> !white_space(trimmed(s)[0]) && !white_space(trimmed(s).last()),
{
    lemma_trim_start(s);
    lemma_trim_end(trim_start(s));
    if trimmed(s).len() > 0 {
        assert(trimmed(s)[0] == trim_start(s)[0]);
    }
}

/// Every extension read from an `ext` value is non-empty and has no white space at
/// either end.
pub proof fn lemma_ext_list_trimmed(raw: Seq<char>)
    ensures
        forall|i: int| 0 <= i < ext_list(raw).len() ==> {
            let e = #[trigger] ext_list(raw)[i];
            &&& e.len() > 0
            &&& !white_space(e[0])
            &&& !white_space(e.last())
        },
{
    let mapped = split_on(raw, seq![',']).map_values(|w: Seq<char>| trimmed(w));
    assert forall|i: int| 0 <= i < ext_list(raw).len() implies {
        let e = #[trigger] ext_list(raw)[i];
        &&& e.len() > 0
        &&& !white_space(e[0])
        &&& !white_space(e.last())
    } by {
        let e = ext_list(raw)[i];
        mapped.lemma_filter_pred(non_empty(), i);
        assert(mapped.filter(non_empty()).contains(e));
        mapped.lemma_filter_contains_rev(non_empty(), e);
        let j = choose|j: int| 0 <= j < mapped.len() && mapped[j] == e;
        lemma_trimmed(split_on(raw, seq![','])[j]);
    }
}

} // verus!

verus! {

proof fn lemma_filter_nonempty(s: Seq<(Seq<char>, Seq<char>)>, k: Seq<char>, i: int)
    requires
        0 <= i < s.len(),
        s[i].0 == k,
    ensures
        s.filter(pair_ident_is(k)).len() > 0,
    decreases s.len(),
{
    reveal(Seq::filter);
    if i < s.len() - 1 {
        lemma_filter_nonempty(s.drop_last(), k, i);
    }
}

/// The result of a stable sort by identifier is determined by its input: two
/// sequences that are both sorted by identifier and agree, identifier by identifier,
/// on the order of the pairs carrying it, are equal.
pub proof fn lemma_stable_sort_unique(a: Seq<(Seq<char>, Seq<char>)>, b: Seq<(Seq<char>, Seq<char>)>)
    requires
        forall|i: int, j: int| 0 <= i < j < a.len() ==> crate::order::lex_le(a[i].0, a[j].0),
        forall|i: int, j: int| 0 <= i < j < b.len() ==> crate::order::lex_le(b[i].0, b[j].0),
        forall|k: Seq<char>| #[trigger] a.filter(pair_ident_is(k)) == b.filter(pair_ident_is(k)),
    ensures
        a == b,
    decreases a.len() + b.len(),
{
    reveal(Seq::filter);
    if a.len() == 0 && b.len() == 0 {
        assert(a =~= b);
    } else if a.len() == 0 {
        lemma_filter_nonempty(b, b.last().0, b.len() - 1);
        assert(a.filter(pair_ident_is(b.last().0)) == b.filter(pair_ident_is(b.last().0)));
    } else if b.len() == 0 {
        lemma_filter_nonempty(a, a.last().0, a.len() - 1);
        assert(a.filter(pair_ident_is(a.last().0)) == b.filter(pair_ident_is(a.last().0)));
    } else {
        let x = a.last();
        let y = b.last();
        let kx = x.0;
        let ky = y.0;
        // the greatest identifier of each occurs in the other, so they agree
        assert(a.filter(pair_ident_is(kx)) == b.filter(pair_ident_is(kx)));
        assert(a.filter(pair_ident_is(ky)) == b.filter(pair_ident_is(ky)));
        assert(a.filter(pair_ident_is(kx)).last() == x);
        assert(b.filter(pair_ident_is(ky)).last() == y);
        assert(b.filter(pair_ident_is(kx)).contains(x));
        b.lemma_filter_contains_rev(pair_ident_is(kx), x);
        let j = choose|j: int| 0 <= j < b.len() && b[j] == x;
        assert(crate::order::lex_le(kx, ky)) by {
            if j < b.len() - 1 {
                assert(crate::order::lex_le(b[j].0, b[b.len() - 1].0));
            } else {
                crate::order::lemma_lex_le_reflexive(kx);
            }
        }
        assert(a.filter(pair_ident_is(ky)).contains(y));
        a.lemma_filter_contains_rev(pair_ident_is(ky), y);
        let m = choose|m: int| 0 <= m < a.len() && a[m] == y;
        assert(crate::order::lex_le(ky, kx)) by {
            if m < a.len() - 1 {
                assert(crate::order::lex_le(a[m].0, a[a.len() - 1].0));
            } else {
                crate::order::lemma_lex_le_reflexive(ky);
            }
        }
        crate::order::lemma_lex_le_antisymmetric(kx, ky);
        assert(x == y);
        let a2 = a.drop_last();
        let b2 = b.drop_last();
        assert forall|k: Seq<char>| #[trigger] a2.filter(pair_ident_is(k)) == b2.filter(pair_ident_is(k)) by {
            assert(a.filter(pair_ident_is(k)) == b.filter(pair_ident_is(k)));
            if k == kx {
                assert(a2.filter(pair_ident_is(k)) =~= a.filter(pair_ident_is(k)).drop_last());
                assert(b2.filter(pair_ident_is(k)) =~= b.filter(pair_ident_is(k)).drop_last());
            }
        }
        lemma_stable_sort_unique(a2, b2);
        assert(a =~= a2.push(x));
        assert(b =~= b2.push(y));
    }
}

} // verus!

verus! {

/// What `syn` reads from a path-enum attribute's argument text, item by item: the
/// text is parsed as the list of `magic(..)` and walked with `parse_nested_meta`;
/// each item gives its path as token text, and the value after `=` when that value
/// is a string literal (else none).
pub uninterp spec fn attr_items(text: Seq<char>) -> Seq<(Seq<char>, Option<Seq<char>>)>;

/// The items as plain values.
pub open spec fn item_views(s: Seq<(String, Option<String>)>) -> Seq<(Seq<char>, Option<Seq<char>>)> {
    s.map_values(|it: (String, Option<String>)| (it.0@, opt_view(it.1)))
}

/// The view of an optional string.
pub open spec fn opt_view(o: Option<String>) -> Option<Seq<char>> {
    match o {
        Some(v) => Some(v@),
        None => None,
    }
}

/// Parses `magic(<text>)` with `syn::parse_str::<syn::Meta>` and walks its list with
/// `MetaList::parse_nested_meta`; the closure records each item's path (as token
/// text) and, through `ParseNestedMeta::value` and a parse as `syn::LitStr`, the
/// literal's value when there is one. The result is named `attr_items` of the text;
/// for an empty text the walk meets no item (syn's `meta::parser` returns at once on
/// empty input).
#[verifier::external_body]
pub fn parse_attr_items(text: &str) -> (res: Vec<(String, Option<String>)>)
    ensures
        item_views(res@) == attr_items(text@),
        text@.len() == 0 ==> res@.len() == 0,
{
    let mut items: Vec<(String, Option<String>)> = Vec::new();
    if let Ok(syn::Meta::List(list)) = syn::parse_str::<syn::Meta>(&format!("magic({text})")) {
        let _ = list.parse_nested_meta(|meta| {
            let key = quote::ToTokens::to_token_stream(&meta.path).to_string();
            let value = meta.value().and_then(|v| v.parse::<syn::LitStr>()).ok().map(|l| l.value());
            items.push((key, value));
            Ok(())
        });
    }
    items
}

/// The options read so far from a path-enum attribute.
pub struct AttrOptions {
    /// The last `path` value, if any.
    pub root: Option<Seq<char>>,
    /// The extensions of the last `ext` value, if any.
    pub ext: Option<Seq<Seq<char>>>,
    /// The last `prefix` value (empty when none).
    pub prefix: Seq<char>,
    /// Whether reading has stopped.
    pub stopped: bool,
}

/// Reads the items in order: a `path`, `ext` or `prefix` item with a string-literal
/// value sets that option (a later one overriding an earlier one; `ext` through
/// `ext_list`); the first other item, or the first item without such a value,
/// stops the reading, and nothing after it counts.
pub open spec fn read_options(items: Seq<(Seq<char>, Option<Seq<char>>)>) -> AttrOptions
    decreases items.len(),
{
    if items.len() == 0 {
        AttrOptions { root: None, ext: None, prefix: Seq::empty(), stopped: false }
    } else {
        let st = read_options(items.drop_last());
        let (k, v) = items.last();
        if st.stopped {
            st
        } else if k == "path"@ && v is Some {
            AttrOptions { root: v, ..st }
        } else if k == "ext"@ && v is Some {
            AttrOptions { ext: Some(ext_list(v->0)), ..st }
        } else if k == "prefix"@ && v is Some {
            AttrOptions { prefix: v->0, ..st }
        } else {
            AttrOptions { stopped: true, ..st }
        }
    }
}

/// The root directory: the `path` read, else `.`.
pub open spec fn root_of(items: Seq<(Seq<char>, Option<Seq<char>>)>) -> Seq<char> {
    match read_options(items).root {
        Some(r) => r,
        None => seq!['.'],
    }
}

/// The extensions: those of the `ext` read, else just `svg`.
pub open spec fn exts_of(items: Seq<(Seq<char>, Option<Seq<char>>)>) -> Seq<Seq<char>> {
    match read_options(items).ext {
        Some(e) => e,
        None => seq![seq!['s', 'v', 'g']],
    }
}

/// The logical prefix: the `prefix` read, else empty.
pub open spec fn prefix_of(items: Seq<(Seq<char>, Option<Seq<char>>)>) -> Seq<char> {
    read_options(items).prefix
}

/// The options of the path-enum attribute as (root, extensions, prefix), from its
/// items (see `read_options`).
pub fn path_enum_options(items: &Vec<(String, Option<String>)>) -> (res: (String, Vec<String>, String))
    ensures
        res.0@ == root_of(item_views(items@)),
        views(res.1@) == exts_of(item_views(items@)),
        res.2@ == prefix_of(item_views(items@)),
{
    let ghost all = item_views(items@);
    let mut root: Option<String> = None;
    let mut ext: Option<Vec<String>> = None;
    let mut prefix = String::new();
    let mut stopped = false;
    let mut i: usize = 0;
    while i < items.len()
        invariant
            i <= items.len(),
            all == item_views(items@),
            read_options(all.take(i as int)) == (AttrOptions {
                root: opt_view(root),
                ext: match ext { Some(e) => Some(views(e@)), None => None },
                prefix: prefix@,
                stopped,
            }),
        decreases items.len() - i,
    {
        proof {
            assert(all.take(i + 1).drop_last() =~= all.take(i as int));
            assert(all.take(i + 1).last() == all[i as int]);
        }
        if !stopped {
            let key = items[i].0.as_str();
            match &items[i].1 {
                Some(val) => {
                    if same_text(key, "path") {
                        root = Some(val.clone());
                    } else if same_text(key, "ext") {
                        ext = Some(parse_ext_list(val.as_str()));
                    } else if same_text(key, "prefix") {
                        prefix = val.clone();
                    } else {
                        stopped = true;
                    }
                },
                None => {
                    stopped = true;
                },
            }
        }
        i += 1;
    }
    assert(all.take(items.len() as int) =~= all);
    (resolve_root(root), resolve_exts(ext), prefix)
}

/// The options of a path-enum attribute, from its argument text.
pub fn attr_options(text: &str) -> (res: (String, Vec<String>, String))
    ensures
        res.0@ == root_of(attr_items(text@)),
        views(res.1@) == exts_of(attr_items(text@)),
        res.2@ == prefix_of(attr_items(text@)),
{
    let items = parse_attr_items(text);
    path_enum_options(&items)
}

/// With no attribute arguments the root is `.`, the only extension is `svg`, and the
/// prefix is empty.
pub proof fn lemma_attr_defaults(text: Seq<char>)
    requires
        attr_items(text).len() == 0,
    ensures
        root_of(attr_items(text)) == seq!['.'],
        exts_of(attr_items(text)) == seq![seq!['s', 'v', 'g']],
        prefix_of(attr_items(text)) == Seq::<char>::empty(),
{
}

/// Once reading has stopped, later items change nothing.
pub proof fn lemma_attr_stop_is_final(
    a: Seq<(Seq<char>, Option<Seq<char>>)>,
    b: Seq<(Seq<char>, Option<Seq<char>>)>,
)
    requires
        read_options(a).stopped,
    ensures
        read_options(a + b) == read_options(a),
    decreases b.len(),
{
    if b.len() > 0 {
        lemma_attr_stop_is_final(a, b.drop_last());
        assert((a + b).drop_last() =~= a + b.drop_last());
    } else {
        assert(a + b =~= a);
    }
}

/// A later `path`, `ext` or `prefix` item with a string-literal value overrides
/// what was read before it, as long as reading has not stopped.
pub proof fn lemma_attr_later_overrides(a: Seq<(Seq<char>, Option<Seq<char>>)>, v: Seq<char>)
    requires
        !read_options(a).stopped,
    ensures
        root_of(a.push(("path"@, Some(v)))) == v,
        exts_of(a.push(("ext"@, Some(v)))) == ext_list(v),
        prefix_of(a.push(("prefix"@, Some(v)))) == v,
{
    reveal_strlit("path");
    reveal_strlit("ext");
    reveal_strlit("prefix");
    assert("ext"@ != "path"@) by {
        assert("ext"@.len() != "path"@.len());
    }
    assert("prefix"@ != "path"@ && "prefix"@ != "ext"@) by {
        assert("prefix"@.len() != "path"@.len());
        assert("prefix"@.len() != "ext"@.len());
    }
    assert(a.push(("path"@, Some(v))).drop_last() =~= a);
    assert(a.push(("ext"@, Some(v))).drop_last() =~= a);
    assert(a.push(("prefix"@, Some(v))).drop_last() =~= a);
}

} // verus!

verus! {

/// An entry as plain values.
pub open spec fn entry_view(e: PathEntry) -> (Seq<char>, Seq<char>, EntryKind) {
    (e.parent@, e.name@, e.kind)
}

/// The entries as plain values.
pub open spec fn entry_views(s: Seq<PathEntry>) -> Seq<(Seq<char>, Seq<char>, EntryKind)> {
    s.map_values(|e: PathEntry| entry_view(e))
}

/// The logical paths that some entry contributes.
pub open spec fn candidate_paths(entries: Seq<PathEntry>, exts: Seq<Seq<char>>, prefix: Seq<char>) -> Set<Seq<char>> {
    Set::new(|p: Seq<char>| exists|i: int| 0 <= i < entries.len() && candidate(#[trigger] entries[i], exts, prefix) == Some(p))
}

/// Each logical path paired with its identifier.
pub open spec fn ident_pairs(s: Seq<Seq<char>>) -> Seq<(Seq<char>, Seq<char>)> {
    s.map_values(|p: Seq<char>| (valid_ident(p), p))
}

proof fn lemma_push_contains(s: Seq<Seq<char>>, x: Seq<char>, p: Seq<char>)
    ensures
        s.push(x).contains(p) <==> (s.contains(p) || p == x),
{
    if s.contains(p) {
        let i = choose|i: int| 0 <= i < s.len() && s[i] == p;
        assert(s.push(x)[i] == p);
    }
    if p == x {
        assert(s.push(x)[s.len() as int] == p);
    }
    if s.push(x).contains(p) {
        let i = choose|i: int| 0 <= i < s.push(x).len() && s.push(x)[i] == p;
        if i < s.len() {
            assert(s[i] == p);
        }
    }
}

/// The paths marked seen after a walk are exactly the candidate paths of its entries.
proof fn lemma_seen_is_candidates(entries: Seq<PathEntry>, exts: Seq<Seq<char>>, prefix: Seq<char>)
    ensures
        collected(entries, exts, prefix, Seq::empty(), Seq::empty()).1.to_set() == candidate_paths(entries, exts, prefix),
    decreases entries.len(),
{
    let s2 = collected(entries, exts, prefix, Seq::empty(), Seq::empty()).1;
    if entries.len() > 0 {
        let init = entries.drop_last();
        lemma_seen_is_candidates(init, exts, prefix);
        let s = collected(init, exts, prefix, Seq::empty(), Seq::empty()).1;
        let c = candidate(entries.last(), exts, prefix);
        assert forall|p: Seq<char>| s2.to_set().contains(p) <==> candidate_paths(entries, exts, prefix).contains(p) by {
            if let Some(x) = c {
                lemma_push_contains(s, x, p);
            }
            if candidate_paths(entries, exts, prefix).contains(p) {
                let i = choose|i: int| 0 <= i < entries.len() && candidate(#[trigger] entries[i], exts, prefix) == Some(p);
                if i < entries.len() - 1 {
                    assert(init[i] == entries[i]);
                    assert(candidate_paths(init, exts, prefix).contains(p));
                }
            }
            if candidate_paths(init, exts, prefix).contains(p) {
                let i = choose|i: int| 0 <= i < init.len() && candidate(#[trigger] init[i], exts, prefix) == Some(p);
                assert(entries[i] == init[i]);
            }
        }
        assert(s2.to_set() =~= candidate_paths(entries, exts, prefix));
    } else {
        assert(s2.to_set() =~= candidate_paths(entries, exts, prefix));
    }
}

/// With pairwise distinct identifiers, the pairs carrying identifier `k` are none, or
/// the one pair of the path whose identifier is `k`.
proof fn lemma_ident_filter(s: Seq<Seq<char>>, k: Seq<char>)
    requires
        forall|i: int, j: int| 0 <= i < s.len() && 0 <= j < s.len() && i != j ==> valid_ident(s[i]) != valid_ident(s[j]),
    ensures
        (forall|i: int| 0 <= i < s.len() ==> valid_ident(#[trigger] s[i]) != k)
            ==> ident_pairs(s).filter(pair_ident_is(k)) == Seq::<(Seq<char>, Seq<char>)>::empty(),
        forall|i: int| 0 <= i < s.len() && valid_ident(#[trigger] s[i]) == k
            ==> ident_pairs(s).filter(pair_ident_is(k)) == seq![(k, s[i])],
    decreases s.len(),
{
    reveal(Seq::filter);
    if s.len() == 0 {
        assert(ident_pairs(s).filter(pair_ident_is(k)) =~= Seq::<(Seq<char>, Seq<char>)>::empty());
    } else {
        let init = s.drop_last();
        lemma_ident_filter(init, k);
        assert(ident_pairs(s).drop_last() =~= ident_pairs(init));
        let x = s.last();
        if valid_ident(x) == k {
            assert forall|i: int| 0 <= i < init.len() implies valid_ident(#[trigger] init[i]) != k by {
                assert(init[i] == s[i]);
            }
            assert(ident_pairs(s).filter(pair_ident_is(k)) =~= seq![(k, x)]);
            assert forall|i: int| 0 <= i < s.len() && valid_ident(#[trigger] s[i]) == k
                implies ident_pairs(s).filter(pair_ident_is(k)) == seq![(k, s[i])] by {
                if i < s.len() - 1 {
                    assert(valid_ident(s[i]) != valid_ident(s[s.len() - 1]));
                }
            }
        } else {
            assert(ident_pairs(s).filter(pair_ident_is(k)) == ident_pairs(init).filter(pair_ident_is(k)));
            assert forall|i: int| 0 <= i < s.len() && valid_ident(#[trigger] s[i]) == k
                implies ident_pairs(s).filter(pair_ident_is(k)) == seq![(k, s[i])] by {
                assert(i < s.len() - 1);
                assert(init[i] == s[i]);
            }
            if forall|i: int| 0 <= i < s.len() ==> valid_ident(#[trigger] s[i]) != k {
                assert forall|i: int| 0 <= i < init.len() implies valid_ident(#[trigger] init[i]) != k by {
                    assert(init[i] == s[i]);
                }
            }
        }
    }
}

/// The path enum does not depend on the order in which the directory walk lists
/// entries: two walks that meet the same entries (in any order, any number of times)
/// give the same variants in the same order, provided the candidate paths map to
/// pairwise distinct identifiers.
pub proof fn lemma_walk_order_irrelevant(
    e1: Seq<PathEntry>,
    e2: Seq<PathEntry>,
    exts: Seq<Seq<char>>,
    prefix: Seq<char>,
    r1: Seq<(Seq<char>, Seq<char>)>,
    r2: Seq<(Seq<char>, Seq<char>)>,
)
    requires
        entry_views(e1).to_set() == entry_views(e2).to_set(),
        forall|p: Seq<char>, q: Seq<char>|
            #![trigger candidate_paths(e1, exts, prefix).contains(p), candidate_paths(e1, exts, prefix).contains(q)]
            candidate_paths(e1, exts, prefix).contains(p) && candidate_paths(e1, exts, prefix).contains(q) && p != q
                ==> valid_ident(p) != valid_ident(q),
        stable_sorted_of(r1, collected(e1, exts, prefix, Seq::empty(), Seq::empty()).0),
        stable_sorted_of(r2, collected(e2, exts, prefix, Seq::empty(), Seq::empty()).0),
    ensures
        r1 == r2,
{
    let empty_vars = Seq::<(Seq<char>, Seq<char>)>::empty();
    let empty_seen = Seq::<Seq<char>>::empty();
    assert(empty_vars.map_values(|v: (Seq<char>, Seq<char>)| v.1) =~= empty_seen);
    lemma_collected_distinct(e1, exts, prefix, empty_seen, empty_vars);
    lemma_collected_distinct(e2, exts, prefix, empty_seen, empty_vars);
    let (v1, s1) = collected(e1, exts, prefix, empty_seen, empty_vars);
    let (v2, s2) = collected(e2, exts, prefix, empty_seen, empty_vars);
    lemma_seen_is_candidates(e1, exts, prefix);
    lemma_seen_is_candidates(e2, exts, prefix);
    let cand = candidate_paths(e1, exts, prefix);
    // the same entries give the same candidates
    assert forall|p: Seq<char>| candidate_paths(e2, exts, prefix).contains(p) <==> cand.contains(p) by {
        if cand.contains(p) {
            let i = choose|i: int| 0 <= i < e1.len() && candidate(#[trigger] e1[i], exts, prefix) == Some(p);
            assert(entry_views(e1)[i] == entry_view(e1[i]));
            assert(entry_views(e1).to_set().contains(entry_view(e1[i])));
            assert(entry_views(e2).to_set().contains(entry_view(e1[i])));
            let j = choose|j: int| 0 <= j < entry_views(e2).len() && entry_views(e2)[j] == entry_view(e1[i]);
            assert(entry_view(e2[j]) == entry_view(e1[i]));
            assert(candidate(e2[j], exts, prefix) == candidate(e1[i], exts, prefix));
        }
        if candidate_paths(e2, exts, prefix).contains(p) {
            let i = choose|i: int| 0 <= i < e2.len() && candidate(#[trigger] e2[i], exts, prefix) == Some(p);
            assert(entry_views(e2)[i] == entry_view(e2[i]));
            assert(entry_views(e2).to_set().contains(entry_view(e2[i])));
            assert(entry_views(e1).to_set().contains(entry_view(e2[i])));
            let j = choose|j: int| 0 <= j < entry_views(e1).len() && entry_views(e1)[j] == entry_view(e2[i]);
            assert(entry_view(e1[j]) == entry_view(e2[i]));
            assert(candidate(e1[j], exts, prefix) == candidate(e2[i], exts, prefix));
        }
    }
    // the variants are the seen paths paired with their identifiers
    assert(v1 =~= ident_pairs(s1)) by {
        assert forall|i: int| 0 <= i < v1.len() implies v1[i] == ident_pairs(s1)[i] by {
            assert(v1.map_values(|v: (Seq<char>, Seq<char>)| v.1)[i] == s1[i]);
            assert(v1[i].0 == valid_ident(v1[i].1));
        }
    }
    assert(v2 =~= ident_pairs(s2)) by {
        assert forall|i: int| 0 <= i < v2.len() implies v2[i] == ident_pairs(s2)[i] by {
            assert(v2.map_values(|v: (Seq<char>, Seq<char>)| v.1)[i] == s2[i]);
            assert(v2[i].0 == valid_ident(v2[i].1));
        }
    }
    // identifiers are pairwise distinct in both
    assert forall|i: int, j: int| 0 <= i < s1.len() && 0 <= j < s1.len() && i != j implies valid_ident(s1[i]) != valid_ident(s1[j]) by {
        assert(s1.to_set().contains(s1[i]));
        assert(s1.to_set().contains(s1[j]));
        assert(cand.contains(s1[i]) && cand.contains(s1[j]));
    }
    assert forall|i: int, j: int| 0 <= i < s2.len() && 0 <= j < s2.len() && i != j implies valid_ident(s2[i]) != valid_ident(s2[j]) by {
        assert(s2.to_set().contains(s2[i]));
        assert(s2.to_set().contains(s2[j]));
        assert(cand.contains(s2[i]) && cand.contains(s2[j]));
    }
    assert forall|k: Seq<char>| #[trigger] r1.filter(pair_ident_is(k)) == r2.filter(pair_ident_is(k)) by {
        assert(r1.filter(pair_ident_is(k)) == v1.filter(pair_ident_is(k)));
        assert(r2.filter(pair_ident_is(k)) == v2.filter(pair_ident_is(k)));
        lemma_ident_filter(s1, k);
        lemma_ident_filter(s2, k);
        if exists|i: int| 0 <= i < s1.len() && valid_ident(#[trigger] s1[i]) == k {
            let i = choose|i: int| 0 <= i < s1.len() && valid_ident(#[trigger] s1[i]) == k;
            assert(s1.to_set().contains(s1[i]));
            assert(s2.to_set().contains(s1[i]));
            let j = choose|j: int| 0 <= j < s2.len() && s2[j] == s1[i];
            assert(valid_ident(s2[j]) == k);
        } else if exists|j: int| 0 <= j < s2.len() && valid_ident(#[trigger] s2[j]) == k {
            let j = choose|j: int| 0 <= j < s2.len() && valid_ident(#[trigger] s2[j]) == k;
            assert(s2.to_set().contains(s2[j]));
            assert(s1.to_set().contains(s2[j]));
            let i = choose|i: int| 0 <= i < s1.len() && s1[i] == s2[j];
            assert(valid_ident(s1[i]) == k);
        }
    }
    lemma_stable_sort_unique(r1, r2);
}

} // verus!
