//! Laws of the library, each stated directly over inputs and results.
use vstd::prelude::*;
use crate::chars::{lemma_split_on_nonempty, replace_char, split_on};
use crate::ident::{ident_segment, middle_dot, pascal_case, segment_joiner, valid_ident, word_separators};
use crate::model::FieldDef;
use crate::parser::variant_pairs;
use crate::paths::{allowed_ext, candidate, collected, lemma_collected_distinct, EntryKind, PathEntry};
use crate::text::{alphabetic, ascii_upper_of, join, lowercase_of, uppercase_of, white_space};

verus! {

/// ASCII uppercase maps `'a'..='z'` one to one, in order, onto `'A'..='Z'` and leaves
/// every other character as it is.
pub proof fn law_ascii_upper(c: char)
    ensures
        'a' <= c && c <= 'z' ==> {
            &&& 'A' <= ascii_upper_of(c) && ascii_upper_of(c) <= 'Z'
            &&& (ascii_upper_of(c) as u32) - ('A' as u32) == (c as u32) - ('a' as u32)
        },
        !('a' <= c && c <= 'z') ==> ascii_upper_of(c) == c,
{
}

/// Each parser variant is the struct name followed by the field name whose first
/// character, when it is an ASCII lowercase letter, is turned into the matching
/// uppercase letter; every other character of the field name is kept.
pub proof fn law_parser_variant_names(struct_name: Seq<char>, fields: Seq<FieldDef>)
    ensures
        variant_pairs(struct_name, fields).len() == fields.len(),
        forall|i: int| 0 <= i < fields.len() ==> {
            let f = #[trigger] fields[i].name@;
            let v = variant_pairs(struct_name, fields)[i].1;
            &&& variant_pairs(struct_name, fields)[i].0 == f
            &&& v.len() == struct_name.len() + f.len()
            &&& v.subrange(0, struct_name.len() as int) == struct_name
            &&& f.len() > 0 ==> v.subrange(struct_name.len() as int + 1, v.len() as int) == f.drop_first()
            &&& (f.len() > 0 && 'a' <= f[0] && f[0] <= 'z') ==> {
                &&& 'A' <= v[struct_name.len() as int] && v[struct_name.len() as int] <= 'Z'
                &&& (v[struct_name.len() as int] as u32) - ('A' as u32) == (f[0] as u32) - ('a' as u32)
            }
            &&& (f.len() > 0 && !('a' <= f[0] && f[0] <= 'z')) ==> v[struct_name.len() as int] == f[0]
        },
{
    assert forall|i: int| 0 <= i < fields.len() implies {
        let f = #[trigger] fields[i].name@;
        let v = variant_pairs(struct_name, fields)[i].1;
        &&& variant_pairs(struct_name, fields)[i].0 == f
        &&& v.len() == struct_name.len() + f.len()
        &&& v.subrange(0, struct_name.len() as int) == struct_name
        &&& f.len() > 0 ==> v.subrange(struct_name.len() as int + 1, v.len() as int) == f.drop_first()
        &&& (f.len() > 0 && 'a' <= f[0] && f[0] <= 'z') ==> {
            &&& 'A' <= v[struct_name.len() as int] && v[struct_name.len() as int] <= 'Z'
            &&& (v[struct_name.len() as int] as u32) - ('A' as u32) == (f[0] as u32) - ('a' as u32)
        }
        &&& (f.len() > 0 && !('a' <= f[0] && f[0] <= 'z')) ==> v[struct_name.len() as int] == f[0]
    } by {
        let f = fields[i].name@;
        let v = variant_pairs(struct_name, fields)[i].1;
        assert(v.subrange(0, struct_name.len() as int) =~= struct_name);
        if f.len() > 0 {
            law_ascii_upper(f[0]);
            assert(v.subrange(struct_name.len() as int + 1, v.len() as int) =~= f.drop_first());
            assert(v[struct_name.len() as int] == ascii_upper_of(f[0]));
        }
    }
}

/// `name` ends with `.` followed by `ext`, character by character.
pub open spec fn ends_with_dot_ext(name: Seq<char>, ext: Seq<char>) -> bool {
    &&& name.len() >= ext.len() + 1
    &&& name[name.len() - ext.len() - 1] == '.'
    &&& forall|j: int| 0 <= j < ext.len() ==> name[name.len() - ext.len() + j] == #[trigger] ext[j]
}

/// A file name is allowed exactly when it ends with `.` followed by one of the
/// extensions.
pub proof fn law_allowed_ext(name: Seq<char>, exts: Seq<Seq<char>>)
    ensures
        allowed_ext(name, exts) <==> exists|k: int| 0 <= k < exts.len() && ends_with_dot_ext(name, #[trigger] exts[k]),
{
    if allowed_ext(name, exts) {
        let k = choose|k: int| 0 <= k < exts.len() && crate::text::has_suffix(name, seq!['.'] + #[trigger] exts[k]);
        let e = exts[k];
        let tail = name.subrange(name.len() - e.len() - 1, name.len() as int);
        assert(tail == seq!['.'] + e);
        assert(tail[0] == '.');
        assert forall|j: int| 0 <= j < e.len() implies name[name.len() - e.len() + j] == #[trigger] e[j] by {
            assert(tail[j + 1] == (seq!['.'] + e)[j + 1]);
        }
        assert(ends_with_dot_ext(name, exts[k]));
    }
    if exists|k: int| 0 <= k < exts.len() && ends_with_dot_ext(name, #[trigger] exts[k]) {
        let k = choose|k: int| 0 <= k < exts.len() && ends_with_dot_ext(name, #[trigger] exts[k]);
        let e = exts[k];
        let tail = name.subrange(name.len() - e.len() - 1, name.len() as int);
        assert forall|j: int| 0 <= j < tail.len() implies tail[j] == (seq!['.'] + e)[j] by {
            if j > 0 {
                assert(e[j - 1] == name[name.len() - e.len() + (j - 1)]);
            }
        }
        assert(tail =~= seq!['.'] + e);
        assert(crate::text::has_suffix(name, seq!['.'] + exts[k]));
    }
}

/// The entry is kept: it is a directory, or a file whose name ends with `.ext` for
/// an allowed `ext`.
pub open spec fn kept(e: PathEntry, exts: Seq<Seq<char>>) -> bool {
    ||| e.kind is Dir
    ||| e.kind is File && exists|k: int| 0 <= k < exts.len() && ends_with_dot_ext(e.name@, #[trigger] exts[k])
}

/// The entry's logical path: its relative path (`parent/name`, or `name` at the root)
/// below the prefix (`prefix/rel`, or `rel` when the prefix is empty).
pub open spec fn logical_path(e: PathEntry, prefix: Seq<char>) -> Seq<char> {
    let rel = if e.parent@.len() == 0 {
        e.name@
    } else {
        e.parent@ + seq!['/'] + e.name@
    };
    if prefix.len() == 0 {
        rel
    } else {
        prefix + seq!['/'] + rel
    }
}

proof fn lemma_candidate(e: PathEntry, exts: Seq<Seq<char>>, prefix: Seq<char>)
    ensures
        candidate(e, exts, prefix) == if kept(e, exts) {
            Some(logical_path(e, prefix))
        } else {
            None::<Seq<char>>
        },
{
    law_allowed_ext(e.name@, exts);
}

/// A walk keeps every directory and every file with an allowed extension, under its
/// logical path (prefix included, for directories as for files), and nothing else;
/// each variant's identifier is the one made from its path, and no path appears
/// twice.
pub proof fn law_collected_paths(entries: Seq<PathEntry>, exts: Seq<Seq<char>>, prefix: Seq<char>)
    ensures
        ({
            let (v, s) = collected(entries, exts, prefix, Seq::empty(), Seq::empty());
            &&& v.len() == s.len()
            &&& s.no_duplicates()
            &&& forall|j: int| 0 <= j < entries.len() && kept(#[trigger] entries[j], exts)
                ==> s.contains(logical_path(entries[j], prefix))
            &&& forall|i: int| 0 <= i < v.len() ==> {
                &&& (#[trigger] v[i]).1 == s[i]
                &&& v[i].0 == valid_ident(v[i].1)
                &&& exists|j: int| 0 <= j < entries.len() && kept(#[trigger] entries[j], exts)
                    && v[i].1 == logical_path(entries[j], prefix)
            }
        }),
    decreases entries.len(),
{
    let empty_vars = Seq::<(Seq<char>, Seq<char>)>::empty();
    let empty_seen = Seq::<Seq<char>>::empty();
    assert(empty_vars.map_values(|v: (Seq<char>, Seq<char>)| v.1) =~= empty_seen);
    lemma_collected_distinct(entries, exts, prefix, empty_seen, empty_vars);
    let (v, s) = collected(entries, exts, prefix, empty_seen, empty_vars);
    assert forall|i: int| 0 <= i < v.len() implies (#[trigger] v[i]).1 == s[i] by {
        assert(v.map_values(|v: (Seq<char>, Seq<char>)| v.1)[i] == s[i]);
    }
    if entries.len() > 0 {
        let init = entries.drop_last();
        let last = entries.last();
        law_collected_paths(init, exts, prefix);
        lemma_candidate(last, exts, prefix);
        let (v0, s0) = collected(init, exts, prefix, empty_seen, empty_vars);
        assert forall|j: int| 0 <= j < entries.len() && kept(#[trigger] entries[j], exts)
            implies s.contains(logical_path(entries[j], prefix)) by {
            if j < entries.len() - 1 {
                assert(init[j] == entries[j]);
                let q = logical_path(entries[j], prefix);
                assert(s0.contains(q));
                let w = choose|w: int| 0 <= w < s0.len() && s0[w] == q;
                if s != s0 {
                    assert(s == s0.push(s.last()));
                    assert(s[w] == q);
                }
            } else {
                let q = logical_path(last, prefix);
                if !s0.contains(q) {
                    assert(s[s.len() - 1] == q);
                }
            }
        }
        assert forall|i: int| #![trigger v[i]] 0 <= i < v.len() implies exists|j: int| 0 <= j < entries.len() && kept(#[trigger] entries[j], exts)
            && v[i].1 == logical_path(entries[j], prefix) by {
            if i < v0.len() {
                assert(v[i] == v0[i]);
                let j = choose|j: int| 0 <= j < init.len() && kept(#[trigger] init[j], exts)
                    && v0[i].1 == logical_path(init[j], prefix);
                assert(entries[j] == init[j]);
            } else {
                assert(v[i].1 == logical_path(last, prefix));
                assert(kept(entries[entries.len() - 1], exts));
            }
        }
    }
}

} // verus!

verus! {

/// The numeric value of a sequence of decimal digits.
pub open spec fn digits_value(s: Seq<char>) -> int
    decreases s.len(),
{
    if s.len() == 0 {
        0
    } else {
        digits_value(s.drop_last()) * 10 + ((s.last() as u32) - ('0' as u32))
    }
}

proof fn lemma_digit_char(d: nat)
    requires
        d < 10,
    ensures
        '0' <= crate::text::digit_char(d) && crate::text::digit_char(d) <= '9',
        (crate::text::digit_char(d) as u32) - ('0' as u32) == d,
        d != 0 ==> crate::text::digit_char(d) != '0',
{
}

/// The decimal rendering of `n` is made of digits, has no leading zero, and reads
/// back as `n`.
pub proof fn law_decimal(n: nat)
    ensures
        crate::text::decimal(n).len() > 0,
        forall|i: int| 0 <= i < crate::text::decimal(n).len()
            ==> '0' <= #[trigger] crate::text::decimal(n)[i] && crate::text::decimal(n)[i] <= '9',
        crate::text::decimal(n).len() > 1 ==> crate::text::decimal(n)[0] != '0',
        digits_value(crate::text::decimal(n)) == n,
    decreases n,
{
    let d = crate::text::decimal(n);
    if n < 10 {
        lemma_digit_char(n);
        assert(d.drop_last() =~= Seq::<char>::empty());
        assert(d.last() == crate::text::digit_char(n));
        assert(digits_value(d) == digits_value(d.drop_last()) * 10 + ((d.last() as u32) - ('0' as u32)));
        assert(digits_value(d.drop_last()) == 0);
    } else {
        assert(n / 10 >= 1 && n == (n / 10) * 10 + n % 10 && n % 10 < 10) by (nonlinear_arith)
            requires
                n >= 10,
        ;
        law_decimal(n / 10);
        lemma_digit_char(n % 10);
        if n / 10 < 10 {
            lemma_digit_char(n / 10);
        }
        let p = crate::text::decimal(n / 10);
        assert(d.drop_last() =~= p);
        assert(d.last() == crate::text::digit_char(n % 10));
        assert(digits_value(d) == digits_value(p) * 10 + ((d.last() as u32) - ('0' as u32)));
        assert forall|i: int| 0 <= i < d.len() implies '0' <= #[trigger] d[i] && d[i] <= '9' by {
            if i < p.len() {
                assert(d[i] == p[i]);
            }
        }
        assert(d[0] == p[0]);
        if p.len() == 1 {
            if n / 10 >= 10 {
                let q = crate::text::decimal(n / 10 / 10);
                assert(p.len() == q.len() + 1);
            }
            assert(p[0] == crate::text::digit_char(n / 10));
        }
    }
}

/// The placeholder list grows one number at a time: `$1` for one column, and each
/// further column adds `, $k` where `k` is its position counted from 1.
pub proof fn law_placeholders(n: nat)
    ensures
        crate::sql::placeholders(0) == Seq::<char>::empty(),
        crate::sql::placeholders(1) == "$"@ + crate::text::decimal(1),
        n >= 1 ==> crate::sql::placeholders(n + 1) == crate::sql::placeholders(n) + ", "@ + "$"@ + crate::text::decimal(n + 1),
{
    let f = |i: int| "$"@ + crate::text::decimal((i + 1) as nat);
    assert(Seq::new(0, f) =~= Seq::<Seq<char>>::empty());
    if n >= 1 {
        let s = Seq::new(n + 1, f);
        assert(s.drop_last() =~= Seq::new(n, f));
    }
}

/// An insert statement ends with `$n)` for `n` the number of bound fields, and every
/// field is bound, in field order.
pub proof fn law_insert_placeholders(struct_name: Seq<char>, fields: Seq<FieldDef>)
    ensures
        ({
            let plan = crate::sql::insert_plan(struct_name, fields);
            let tail = "$"@ + crate::text::decimal(fields.len()) + ")"@;
            &&& plan.params.len() == fields.len()
            &&& fields.len() >= 1 ==> plan.sql.len() >= tail.len()
                && plan.sql.subrange(plan.sql.len() - tail.len(), plan.sql.len() as int) == tail
        }),
{
    let plan = crate::sql::insert_plan(struct_name, fields);
    let n = fields.len();
    if n >= 1 {
        let f = |i: int| "$"@ + crate::text::decimal((i + 1) as nat);
        let parts = Seq::new(n, f);
        let last = "$"@ + crate::text::decimal(n);
        assert(parts.last() == last);
        let marks = crate::sql::placeholders(n);
        if n == 1 {
            assert(marks == parts[0]);
        } else {
            assert(marks == crate::text::join(parts.drop_last(), ", "@) + ", "@ + parts.last());
        }
        assert(marks.subrange(marks.len() - last.len(), marks.len() as int) =~= last);
        let tail = last + ")"@;
        let head = "INSERT INTO "@ + crate::sql::quoted_table(struct_name) + " ("@ + crate::sql::column_list(fields)
            + ") VALUES ("@;
        assert(plan.sql =~= head + marks + ")"@);
        assert(plan.sql.subrange(plan.sql.len() - tail.len(), plan.sql.len() as int) =~= tail);
    }
}

} // verus!

verus! {

/// A word with no character that the identifier conversion treats specially.
pub open spec fn plain_word(w: Seq<char>) -> bool {
    &&& w.len() > 0
    &&& forall|i: int| 0 <= i < w.len() ==> {
        let c = #[trigger] w[i];
        c != '/' && c != '&' && c != '.' && c != '-' && c != '_' && c != ' '
    }
}

/// The word with its first character replaced by that character's uppercase
/// mapping, and every other character kept as it is.
pub open spec fn capital(w: Seq<char>) -> Seq<char> {
    uppercase_of(w[0]) + w.drop_first()
}

/// The text starts with `_` or an alphabetic character.
pub open spec fn starts_validly(x: Seq<char>) -> bool {
    x.len() > 0 && (x[0] == '_' || alphabetic(x[0]))
}

proof fn lemma_split_none(s: Seq<char>, seps: Seq<char>)
    requires
        forall|i: int| 0 <= i < s.len() ==> !seps.contains(#[trigger] s[i]),
    ensures
        split_on(s, seps) == seq![s],
    decreases s.len(),
{
    if s.len() > 0 {
        lemma_split_none(s.drop_last(), seps);
        assert(s.drop_last().push(s.last()) =~= s);
        assert(!seps.contains(s[s.len() - 1]));
        assert(seq![s.drop_last()].drop_last().push(s.drop_last().push(s.last())) =~= seq![s]);
    } else {
        assert(s =~= Seq::<char>::empty());
    }
}

proof fn lemma_split_append(x: Seq<char>, b: Seq<char>, seps: Seq<char>)
    requires
        forall|i: int| 0 <= i < b.len() ==> !seps.contains(#[trigger] b[i]),
    ensures
        split_on(x + b, seps) == split_on(x, seps).drop_last().push(split_on(x, seps).last() + b),
    decreases b.len(),
{
    lemma_split_on_nonempty(x, seps);
    if b.len() == 0 {
        assert(x + b =~= x);
        assert(split_on(x, seps).last() + b =~= split_on(x, seps).last());
        assert(split_on(x, seps).drop_last().push(split_on(x, seps).last()) =~= split_on(x, seps));
    } else {
        lemma_split_append(x, b.drop_last(), seps);
        assert((x + b).drop_last() =~= x + b.drop_last());
        assert((x + b).last() == b.last());
        assert(!seps.contains(b[b.len() - 1]));
        let init = split_on(x + b.drop_last(), seps);
        assert(init.drop_last() =~= split_on(x, seps).drop_last());
        assert((split_on(x, seps).last() + b.drop_last()).push(b.last()) =~= split_on(x, seps).last() + b);
        assert(init.drop_last().push(init.last().push(b.last())) =~= split_on(x, seps).drop_last().push(
            split_on(x, seps).last() + b));
    }
}

/// `a c b` with `c` a separator and neither `a` nor `b` holding one splits into `a`, `b`.
proof fn lemma_split_two(a: Seq<char>, c: char, b: Seq<char>, seps: Seq<char>)
    requires
        seps.contains(c),
        forall|i: int| 0 <= i < a.len() ==> !seps.contains(#[trigger] a[i]),
        forall|i: int| 0 <= i < b.len() ==> !seps.contains(#[trigger] b[i]),
    ensures
        split_on(a + seq![c] + b, seps) == seq![a, b],
{
    lemma_split_none(a, seps);
    let ac = a + seq![c];
    assert(ac.drop_last() =~= a);
    assert(ac.last() == c);
    assert(split_on(ac, seps) =~= seq![a, Seq::<char>::empty()]);
    lemma_split_append(ac, b, seps);
    assert(seq![a, Seq::<char>::empty()].drop_last().push(Seq::<char>::empty() + b) =~= seq![a, b]);
}

proof fn lemma_replace_none(s: Seq<char>, c: char, r: Seq<char>)
    requires
        forall|i: int| 0 <= i < s.len() ==> #[trigger] s[i] != c,
    ensures
        replace_char(s, c, r) == s,
    decreases s.len(),
{
    if s.len() > 0 {
        lemma_replace_none(s.drop_last(), c, r);
        assert(s.drop_last() + seq![s.last()] =~= s);
    } else {
        assert(replace_char(s, c, r) =~= s);
    }
}

proof fn lemma_replace_concat(x: Seq<char>, y: Seq<char>, c: char, r: Seq<char>)
    ensures
        replace_char(x + y, c, r) == replace_char(x, c, r) + replace_char(y, c, r),
    decreases y.len(),
{
    if y.len() == 0 {
        assert(x + y =~= x);
        assert(replace_char(y, c, r) =~= Seq::<char>::empty());
        assert(replace_char(x, c, r) + replace_char(y, c, r) =~= replace_char(x, c, r));
    } else {
        lemma_replace_concat(x, y.drop_last(), c, r);
        assert((x + y).drop_last() =~= x + y.drop_last());
        assert((x + y).last() == y.last());
    }
}

/// `a c b` with `c` the replaced character, absent from `a` and `b`, becomes `a r b`.
proof fn lemma_replace_one(a: Seq<char>, c: char, b: Seq<char>, r: Seq<char>)
    requires
        forall|i: int| 0 <= i < a.len() ==> #[trigger] a[i] != c,
        forall|i: int| 0 <= i < b.len() ==> #[trigger] b[i] != c,
    ensures
        replace_char(a + seq![c] + b, c, r) == a + r + b,
{
    lemma_replace_none(a, c, r);
    lemma_replace_none(b, c, r);
    lemma_replace_concat(a + seq![c], b, c, r);
    lemma_replace_concat(a, seq![c], c, r);
    assert(seq![c].drop_last() =~= Seq::<char>::empty());
    assert(seq![c].last() == c);
    assert(replace_char(seq![c], c, r) == replace_char(seq![c].drop_last(), c, r) + r);
    assert(replace_char(seq![c], c, r) =~= r);
}

proof fn lemma_pascal_one(w: Seq<char>)
    requires
        w.len() > 0,
    ensures
        pascal_case(seq![w]) == capital(w),
{
    assert(seq![w].drop_last() =~= Seq::<Seq<char>>::empty());
    assert(seq![w].last() == w);
    assert(pascal_case(Seq::<Seq<char>>::empty()) == Seq::<char>::empty());
    assert(pascal_case(seq![w]) == pascal_case(seq![w].drop_last()) + (uppercase_of(w[0]) + w.drop_first()));
    assert(Seq::<char>::empty() + capital(w) =~= capital(w));
}

proof fn lemma_pascal_two(a: Seq<char>, b: Seq<char>)
    requires
        a.len() > 0,
        b.len() > 0,
    ensures
        pascal_case(seq![a, b]) == capital(a) + capital(b),
{
    assert(seq![a, b].drop_last() =~= seq![a]);
    lemma_pascal_one(a);
}

/// The segment of a single word that turns into `x`, which starts validly.
proof fn lemma_segment_of(part: Seq<char>, x: Seq<char>)
    requires
        part.len() > 0,
        forall|i: int| 0 <= i < part.len() ==> {
            let c = #[trigger] part[i];
            c != '&' && c != '.' && c != '-' && c != '_' && c != ' '
        },
        x == capital(part),
    ensures
        ident_segment(part) == crate::ident::with_valid_start(x),
{
    lemma_replace_none(part, '&', seq!['A', 'n', 'd']);
    lemma_replace_none(part, '.', seq![middle_dot()]);
    assert forall|i: int| 0 <= i < part.len() implies !word_separators().contains(#[trigger] part[i]) by {
        if word_separators().contains(part[i]) {
            let k = choose|k: int| 0 <= k < 3 && word_separators()[k] == part[i];
        }
    }
    lemma_split_none(part, word_separators());
    lemma_pascal_one(part);
}

/// A whole path that is one plain segment turns into that segment.
proof fn lemma_ident_single(s: Seq<char>, seg: Seq<char>)
    requires
        forall|i: int| 0 <= i < s.len() ==> #[trigger] s[i] != '/',
        ident_segment(s) == seg,
        starts_validly(seg),
    ensures
        valid_ident(s) == seg,
{
    assert forall|i: int| 0 <= i < s.len() implies !seq!['/'].contains(#[trigger] s[i]) by {
        if seq!['/'].contains(s[i]) {
            assert(seq!['/'][0] == s[i]);
        }
    }
    lemma_split_none(s, seq!['/']);
    let segs = split_on(s, seq!['/']).map_values(|p: Seq<char>| ident_segment(p));
    assert(segs =~= seq![seg]);
}

/// A plain word becomes its capital form: only the first character changes (to its
/// uppercase mapping), and `_` goes in front when that form does not start with `_`
/// or a letter.
pub proof fn law_ident_word(w: Seq<char>)
    requires
        plain_word(w),
        uppercase_of(w[0]).len() > 0,
    ensures
        starts_validly(capital(w)) ==> valid_ident(w) == capital(w),
        !starts_validly(capital(w)) ==> valid_ident(w) == seq!['_'] + capital(w),
{
    lemma_segment_of(w, capital(w));
    let seg = crate::ident::with_valid_start(capital(w));
    crate::ident::lemma_with_valid_start(capital(w));
    lemma_ident_single(w, seg);
}

/// Two plain words joined by `-`, `_` or ` ` become one identifier: both capital
/// forms, one after the other.
pub proof fn law_ident_word_separator(a: Seq<char>, sep: char, b: Seq<char>)
    requires
        plain_word(a),
        plain_word(b),
        sep == '-' || sep == '_' || sep == ' ',
        starts_validly(capital(a)),
    ensures
        valid_ident(a + seq![sep] + b) == capital(a) + capital(b),
{
    let s = a + seq![sep] + b;
    assert forall|i: int| 0 <= i < s.len() implies #[trigger] s[i] != '&' && s[i] != '.' && s[i] != '/' by {
        if i < a.len() {
            assert(s[i] == a[i]);
        } else if i > a.len() {
            assert(s[i] == b[i - a.len() - 1]);
        }
    }
    lemma_replace_none(s, '&', seq!['A', 'n', 'd']);
    lemma_replace_none(s, '.', seq![middle_dot()]);
    assert(word_separators().contains(sep)) by {
        if sep == '-' {
            assert(word_separators()[0] == sep);
        } else if sep == '_' {
            assert(word_separators()[1] == sep);
        } else {
            assert(word_separators()[2] == sep);
        }
    }
    assert forall|i: int| 0 <= i < a.len() implies !word_separators().contains(#[trigger] a[i]) by {
        if word_separators().contains(a[i]) {
            let k = choose|k: int| 0 <= k < 3 && word_separators()[k] == a[i];
        }
    }
    assert forall|i: int| 0 <= i < b.len() implies !word_separators().contains(#[trigger] b[i]) by {
        if word_separators().contains(b[i]) {
            let k = choose|k: int| 0 <= k < 3 && word_separators()[k] == b[i];
        }
    }
    lemma_split_two(a, sep, b, word_separators());
    lemma_pascal_two(a, b);
    let x = capital(a) + capital(b);
    assert(x[0] == capital(a)[0]);
    crate::ident::lemma_with_valid_start(x);
    lemma_ident_single(s, x);
}

/// `a.b` of two plain words becomes the capital form of `a`, the middle dot, then `b`
/// unchanged.
pub proof fn law_ident_dot(a: Seq<char>, b: Seq<char>)
    requires
        plain_word(a),
        plain_word(b),
        starts_validly(capital(a)),
    ensures
        valid_ident(a + seq!['.'] + b) == capital(a) + seq!['\u{30FB}'] + b,
{
    let s = a + seq!['.'] + b;
    assert forall|i: int| 0 <= i < s.len() implies #[trigger] s[i] != '&' && s[i] != '/' by {
        if i < a.len() {
            assert(s[i] == a[i]);
        } else if i > a.len() {
            assert(s[i] == b[i - a.len() - 1]);
        }
    }
    lemma_replace_none(s, '&', seq!['A', 'n', 'd']);
    assert forall|i: int| 0 <= i < a.len() implies #[trigger] a[i] != '.' by {}
    assert forall|i: int| 0 <= i < b.len() implies #[trigger] b[i] != '.' by {}
    lemma_replace_one(a, '.', b, seq![middle_dot()]);
    let part = a + seq![middle_dot()] + b;
    assert(capital(part) =~= capital(a) + seq![middle_dot()] + b);
    assert forall|i: int| 0 <= i < part.len() implies {
        let c = #[trigger] part[i];
        c != '&' && c != '.' && c != '-' && c != '_' && c != ' '
    } by {
        if i < a.len() {
            assert(part[i] == a[i]);
        } else if i > a.len() {
            assert(part[i] == b[i - a.len() - 1]);
        }
    }
    let r = replace_char(s, '&', seq!['A', 'n', 'd']);
    assert(r == s);
    lemma_replace_none(part, '&', seq!['A', 'n', 'd']);
    lemma_replace_none(part, '.', seq![middle_dot()]);
    assert forall|i: int| 0 <= i < part.len() implies !word_separators().contains(#[trigger] part[i]) by {
        if word_separators().contains(part[i]) {
            let k = choose|k: int| 0 <= k < 3 && word_separators()[k] == part[i];
        }
    }
    lemma_split_none(part, word_separators());
    lemma_pascal_one(part);
    let x = capital(part);
    assert(x[0] == capital(a)[0]);
    crate::ident::lemma_with_valid_start(x);
    lemma_ident_single(s, x);
}

/// Two plain words joined by `/` become their capital forms joined by the segment
/// joiner.
pub proof fn law_ident_path(a: Seq<char>, b: Seq<char>)
    requires
        plain_word(a),
        plain_word(b),
        starts_validly(capital(a)),
        starts_validly(capital(b)),
    ensures
        valid_ident(a + seq!['/'] + b) == capital(a) + seq!['\u{30CE}'] + capital(b),
{
    let s = a + seq!['/'] + b;
    assert forall|i: int| 0 <= i < a.len() implies !seq!['/'].contains(#[trigger] a[i]) by {
        if seq!['/'].contains(a[i]) {
            assert(seq!['/'][0] == a[i]);
        }
    }
    assert forall|i: int| 0 <= i < b.len() implies !seq!['/'].contains(#[trigger] b[i]) by {
        if seq!['/'].contains(b[i]) {
            assert(seq!['/'][0] == b[i]);
        }
    }
    assert(seq!['/'].contains('/')) by {
        assert(seq!['/'][0] == '/');
    }
    lemma_split_two(a, '/', b, seq!['/']);
    lemma_segment_of(a, capital(a));
    lemma_segment_of(b, capital(b));
    crate::ident::lemma_with_valid_start(capital(a));
    crate::ident::lemma_with_valid_start(capital(b));
    let segs = split_on(s, seq!['/']).map_values(|p: Seq<char>| ident_segment(p));
    assert(segs =~= seq![capital(a), capital(b)]);
    assert(segs.drop_last() =~= seq![capital(a)]);
    assert(segs.last() == capital(b));
    assert(segs.len() == 2);
    assert(join(seq![capital(a)], seq![segment_joiner()]) == capital(a));
    assert(join(segs, seq![segment_joiner()]) == join(segs.drop_last(), seq![segment_joiner()]) + seq![segment_joiner()]
        + segs.last());
    let x = capital(a) + seq![segment_joiner()] + capital(b);
    assert(join(segs, seq![segment_joiner()]) == x);
    assert(x[0] == capital(a)[0]);
    crate::ident::lemma_with_valid_start(x);
}

} // verus!

verus! {

/// Selecting by a field is selecting all rows with `WHERE field = $1` added, binding
/// that field alone.
pub proof fn law_select_by_extends_select_all(struct_name: Seq<char>, fields: Seq<FieldDef>, f: Seq<char>)
    ensures
        crate::sql::select_by_plan(struct_name, fields, f).sql
            == crate::sql::select_all_plan(struct_name, fields).sql + " WHERE "@ + f + " = $1"@,
        crate::sql::select_by_plan(struct_name, fields, f).params == seq![f],
        crate::sql::select_all_plan(struct_name, fields).params.len() == 0,
{
    assert(crate::sql::select_by_plan(struct_name, fields, f).sql
        =~= crate::sql::select_all_plan(struct_name, fields).sql + " WHERE "@ + f + " = $1"@);
}

/// The row methods name their table as the struct's lowercased name in double quotes;
/// the migrations name it without the quotes.
pub proof fn law_table_names(struct_name: Seq<char>, fields: Seq<FieldDef>, f: Seq<char>)
    ensures
        crate::sql::quoted_table(struct_name) == seq!['"'] + lowercase_of(struct_name) + seq!['"'],
        crate::sql::delete_by_plan(struct_name, f).sql
            == "DELETE FROM "@ + crate::sql::quoted_table(struct_name) + " WHERE "@ + f + " = $1"@,
        crate::sql::select_all_plan(struct_name, fields).sql
            == "SELECT "@ + crate::sql::column_list(fields) + " FROM "@ + crate::sql::quoted_table(struct_name),
        crate::sql::migration_plans(struct_name, fields)[1].sql
            == "CREATE TABLE IF NOT EXISTS "@ + lowercase_of(struct_name) + " ("@
                + join(crate::sql::column_defs(fields), ", "@) + ")"@,
        crate::sql::migration_plans(struct_name, fields)[0].sql
            == "CREATE TEMPORARY TABLE IF NOT EXISTS "@ + lowercase_of(struct_name) + " ("@
                + join(crate::sql::column_defs(fields), ", "@) + ")"@,
{
}

/// The column list grows one field at a time: a single field is its name, and each
/// further field adds `, name`.
pub proof fn law_column_list(fields: Seq<FieldDef>, g: FieldDef)
    ensures
        fields.len() == 0 ==> crate::sql::column_list(fields.push(g)) == g.name@,
        fields.len() >= 1 ==> crate::sql::column_list(fields.push(g))
            == crate::sql::column_list(fields) + ", "@ + g.name@,
{
    assert(crate::model::field_names(fields.push(g)) =~= crate::model::field_names(fields).push(g.name@));
    assert(crate::model::field_names(fields.push(g)).drop_last() =~= crate::model::field_names(fields));
}

/// The update's `SET` clause grows one column at a time: appending a field other
/// than the key adds `, name = $k`, where `k` counts the set columns so far from 1.
pub proof fn law_update_set_clause(fields: Seq<FieldDef>, g: FieldDef, f: Seq<char>)
    ensures
        crate::sql::set_columns(Seq::empty(), f) == Seq::<Seq<char>>::empty(),
        g.name@ == f ==> crate::sql::set_columns(fields.push(g), f) == crate::sql::set_columns(fields, f),
        crate::sql::set_columns(fields, f).len() == 0 ==> crate::sql::set_clause(fields, f) == f + " = "@ + f,
        g.name@ != f ==> ({
            let cols = crate::sql::set_columns(fields, f);
            let k = cols.len() + 1;
            &&& crate::sql::set_columns(fields.push(g), f) == cols.push(g.name@)
            &&& cols.len() == 0 ==> crate::sql::set_clause(fields.push(g), f) == g.name@ + " = $"@ + crate::text::decimal(1)
            &&& cols.len() >= 1 ==> crate::sql::set_clause(fields.push(g), f)
                == crate::sql::set_clause(fields, f) + ", "@ + g.name@ + " = $"@ + crate::text::decimal(k)
        }),
{
    reveal(Seq::filter);
    assert(crate::model::field_names(Seq::<FieldDef>::empty()) =~= Seq::<Seq<char>>::empty());
    let names = crate::model::field_names(fields);
    assert(crate::model::field_names(fields.push(g)) =~= names.push(g.name@));
    assert(names.push(g.name@).drop_last() =~= names);
    let cols = crate::sql::set_columns(fields, f);
    let cols2 = crate::sql::set_columns(fields.push(g), f);
    if g.name@ == f {
        assert(cols2 == cols);
    } else {
        assert(cols2 == cols.push(g.name@));
        let na = crate::sql::numbered_assignments(cols);
        let nb = crate::sql::numbered_assignments(cols2);
        assert(nb.drop_last() =~= na);
        assert(nb.last() == g.name@ + " = $"@ + crate::text::decimal((cols.len() + 1) as nat));
        if cols.len() == 0 {
            assert(nb =~= seq![g.name@ + " = $"@ + crate::text::decimal(1)]);
        }
    }
}

/// A name is one of the integer type names exactly when it is `i` or `u`
/// followed by `8`, `16`, `32`, `64`, `128` or `size`; a float name is `f` followed
/// by `32` or `64`.
pub proof fn law_numeric_names(s: Seq<char>)
    ensures
        crate::helpers::int_name(s) <==> s.len() >= 2 && (s[0] == 'i' || s[0] == 'u') && {
            let w = s.drop_first();
            ||| w == seq!['8']
            ||| w == seq!['1', '6']
            ||| w == seq!['3', '2']
            ||| w == seq!['6', '4']
            ||| w == seq!['1', '2', '8']
            ||| w == seq!['s', 'i', 'z', 'e']
        },
        crate::helpers::float_name(s) <==> s.len() == 3 && s[0] == 'f' && (s.drop_first() == seq!['3', '2']
            || s.drop_first() == seq!['6', '4']),
{
    reveal_strlit("i8");
    reveal_strlit("i16");
    reveal_strlit("i32");
    reveal_strlit("i64");
    reveal_strlit("i128");
    reveal_strlit("isize");
    reveal_strlit("u8");
    reveal_strlit("u16");
    reveal_strlit("u32");
    reveal_strlit("u64");
    reveal_strlit("u128");
    reveal_strlit("usize");
    reveal_strlit("f32");
    reveal_strlit("f64");
    let names: Seq<Seq<char>> = seq!["i8"@, "i16"@, "i32"@, "i64"@, "i128"@, "isize"@, "u8"@, "u16"@, "u32"@, "u64"@, "u128"@, "usize"@];
    if s.len() >= 2 {
        let w = s.drop_first();
        assert(s =~= seq![s[0]] + w);
        assert(seq!['i'] + seq!['8'] =~= "i8"@);
        assert(seq!['i'] + seq!['1', '6'] =~= "i16"@);
        assert(seq!['i'] + seq!['3', '2'] =~= "i32"@);
        assert(seq!['i'] + seq!['6', '4'] =~= "i64"@);
        assert(seq!['i'] + seq!['1', '2', '8'] =~= "i128"@);
        assert(seq!['i'] + seq!['s', 'i', 'z', 'e'] =~= "isize"@);
        assert(seq!['u'] + seq!['8'] =~= "u8"@);
        assert(seq!['u'] + seq!['1', '6'] =~= "u16"@);
        assert(seq!['u'] + seq!['3', '2'] =~= "u32"@);
        assert(seq!['u'] + seq!['6', '4'] =~= "u64"@);
        assert(seq!['u'] + seq!['1', '2', '8'] =~= "u128"@);
        assert(seq!['u'] + seq!['s', 'i', 'z', 'e'] =~= "usize"@);
        assert(seq!['f'] + seq!['3', '2'] =~= "f32"@);
        assert(seq!['f'] + seq!['6', '4'] =~= "f64"@);
        assert("i8"@.drop_first() =~= seq!['8']);
        assert("u8"@.drop_first() =~= seq!['8']);
        assert("i16"@.drop_first() =~= seq!['1', '6']);
        assert("u16"@.drop_first() =~= seq!['1', '6']);
        assert("i32"@.drop_first() =~= seq!['3', '2']);
        assert("u32"@.drop_first() =~= seq!['3', '2']);
        assert("f32"@.drop_first() =~= seq!['3', '2']);
        assert("i64"@.drop_first() =~= seq!['6', '4']);
        assert("u64"@.drop_first() =~= seq!['6', '4']);
        assert("f64"@.drop_first() =~= seq!['6', '4']);
        assert("i128"@.drop_first() =~= seq!['1', '2', '8']);
        assert("u128"@.drop_first() =~= seq!['1', '2', '8']);
        assert("isize"@.drop_first() =~= seq!['s', 'i', 'z', 'e']);
        assert("usize"@.drop_first() =~= seq!['s', 'i', 'z', 'e']);
    }
}

} // verus!

verus! {

/// The identifier order is the dictionary order by code point: a text comes no later
/// than any extension of it, and at the first differing character the smaller
/// character decides.
pub proof fn law_lex_order(p: Seq<char>, x: char, q: Seq<char>, y: char, r: Seq<char>)
    ensures
        crate::order::lex_le(p, p + q),
        x < y ==> crate::order::lex_le(p + seq![x] + q, p + seq![y] + r),
        x < y ==> !crate::order::lex_le(p + seq![y] + r, p + seq![x] + q),
    decreases p.len(),
{
    if p.len() > 0 {
        law_lex_order(p.drop_first(), x, q, y, r);
        assert((p + q).drop_first() =~= p.drop_first() + q);
        assert((p + seq![x] + q).drop_first() =~= p.drop_first() + seq![x] + q);
        assert((p + seq![y] + r).drop_first() =~= p.drop_first() + seq![y] + r);
        assert((p + q)[0] == p[0]);
        assert((p + seq![x] + q)[0] == p[0]);
        assert((p + seq![y] + r)[0] == p[0]);
    } else {
        assert(p + seq![x] + q =~= seq![x] + q);
        assert(p + seq![y] + r =~= seq![y] + r);
        assert((seq![x] + q)[0] == x);
        assert((seq![y] + r)[0] == y);
    }
}

/// The retain rule for a last path segment `s`: `String` and `Vec` drop empty values,
/// `bool` drops `false`, an integer type drops zero, `f32` and `f64` drop their zero,
/// `Option` drops `None`; any other name has no rule.
pub open spec fn rule_for_name(s: Seq<char>) -> Option<crate::parser::RetainRule> {
    if s == "String"@ || s == "Vec"@ {
        Some(crate::parser::RetainRule::EmptyValue)
    } else if s == "bool"@ {
        Some(crate::parser::RetainRule::FalseValue)
    } else if crate::helpers::int_name(s) {
        Some(crate::parser::RetainRule::ZeroInt)
    } else if s == "f32"@ {
        Some(crate::parser::RetainRule::ZeroF32)
    } else if s == "f64"@ {
        Some(crate::parser::RetainRule::ZeroF64)
    } else if s == "Option"@ {
        Some(crate::parser::RetainRule::NoneValue)
    } else {
        None
    }
}

/// A field type's retain rule is decided by the last segment of an unqualified path
/// (see `rule_for_name`); a reference to an unqualified path ending in `str` drops
/// empty values; every other type has no rule.
pub proof fn law_retain_rules(ty: crate::model::TypeShape)
    ensures
        crate::parser::retain_rule(ty) == match ty {
            crate::model::TypeShape::Path { has_qself, segments } =>
                if !has_qself && segments@.len() > 0 {
                    rule_for_name(segments@.last()@)
                } else {
                    None
                },
            crate::model::TypeShape::Reference { elem } => match *elem {
                crate::model::TypeShape::Path { has_qself, segments } =>
                    if !has_qself && segments@.len() > 0 && segments@.last()@ == "str"@ {
                        Some(crate::parser::RetainRule::EmptyValue)
                    } else {
                        None
                    },
                _ => None,
            },
            crate::model::TypeShape::Other => None,
        },
{
    crate::helpers::lemma_type_classes_disjoint(ty);
    reveal_strlit("String");
    reveal_strlit("Vec");
    reveal_strlit("bool");
    reveal_strlit("f32");
    reveal_strlit("f64");
    reveal_strlit("Option");
    reveal_strlit("str");
}

} // verus!

verus! {

/// Reading an attribute stops at the first item whose key is not `path`, `ext` or
/// `prefix`, or whose value is not a string literal; that item changes no option.
/// A `path`, `ext` or `prefix` item with a string-literal value changes only its own
/// option and lets reading go on.
pub proof fn law_attr_items(a: Seq<(Seq<char>, Option<Seq<char>>)>, k: Seq<char>, v: Option<Seq<char>>)
    requires
        !crate::paths::read_options(a).stopped,
    ensures
        ({
            let before = crate::paths::read_options(a);
            let after = crate::paths::read_options(a.push((k, v)));
            &&& (v is None || (k != "path"@ && k != "ext"@ && k != "prefix"@)) ==> {
                &&& after.stopped
                &&& after.root == before.root && after.ext == before.ext && after.prefix == before.prefix
            }
            &&& (v is Some && k == "path"@) ==> !after.stopped && after.root == v && after.ext == before.ext
                && after.prefix == before.prefix
            &&& (v is Some && k == "ext"@) ==> !after.stopped && after.ext == Some(crate::paths::ext_list(v->0))
                && after.root == before.root && after.prefix == before.prefix
            &&& (v is Some && k == "prefix"@) ==> !after.stopped && after.prefix == v->0 && after.root == before.root
                && after.ext == before.ext
        }),
{
    reveal_strlit("path");
    reveal_strlit("ext");
    reveal_strlit("prefix");
    assert("ext"@ != "path"@) by {
        assert("ext"@.len() != "path"@.len());
    }
    assert("prefix"@ != "path"@ && "prefix"@ != "ext"@) by {
        assert("prefix"@.len() != "path"@.len());
        assert("prefix"@.len() != "ext"@.len());
    }
    assert(a.push((k, v)).drop_last() =~= a);
    assert(a.push((k, v)).last() == (k, v));
}

/// `a&b` of two plain words becomes the capital form of `a`, `And`, then `b`
/// unchanged.
pub proof fn law_ident_ampersand(a: Seq<char>, b: Seq<char>)
    requires
        plain_word(a),
        plain_word(b),
        starts_validly(capital(a)),
    ensures
        valid_ident(a + seq!['&'] + b) == capital(a) + seq!['A', 'n', 'd'] + b,
{
    let s = a + seq!['&'] + b;
    assert forall|i: int| 0 <= i < a.len() implies #[trigger] a[i] != '&' by {}
    assert forall|i: int| 0 <= i < b.len() implies #[trigger] b[i] != '&' by {}
    lemma_replace_one(a, '&', b, seq!['A', 'n', 'd']);
    let part = a + seq!['A', 'n', 'd'] + b;
    assert forall|i: int| 0 <= i < part.len() implies {
        let c = #[trigger] part[i];
        c != '&' && c != '.' && c != '-' && c != '_' && c != ' '
    } by {
        if i < a.len() {
            assert(part[i] == a[i]);
        } else if i >= a.len() + 3 {
            assert(part[i] == b[i - a.len() - 3]);
        }
    }
    lemma_replace_none(part, '.', seq![middle_dot()]);
    assert forall|i: int| 0 <= i < part.len() implies !word_separators().contains(#[trigger] part[i]) by {
        if word_separators().contains(part[i]) {
            let k = choose|k: int| 0 <= k < 3 && word_separators()[k] == part[i];
        }
    }
    lemma_split_none(part, word_separators());
    lemma_pascal_one(part);
    let x = capital(part);
    assert(x =~= capital(a) + seq!['A', 'n', 'd'] + b);
    assert(x[0] == capital(a)[0]);
    crate::ident::lemma_with_valid_start(x);
    assert forall|i: int| 0 <= i < s.len() implies #[trigger] s[i] != '/' by {
        if i < a.len() {
            assert(s[i] == a[i]);
        } else if i > a.len() {
            assert(s[i] == b[i - a.len() - 1]);
        }
    }
    lemma_ident_single(s, x);
}

/// Trimming removes exactly the white space at both ends: the result is a
/// contiguous piece of the text, everything before and after it is white space, and
/// it neither starts nor ends with white space.
pub proof fn law_trimmed(s: Seq<char>)
    ensures
        exists|i: int, j: int| #![trigger s.subrange(i, j)] 0 <= i <= j <= s.len() && crate::paths::trimmed(s) == s.subrange(i, j)
            && (forall|k: int| 0 <= k < i ==> white_space(#[trigger] s[k]))
            && (forall|k: int| j <= k < s.len() ==> white_space(#[trigger] s[k])),
        crate::paths::trimmed(s).len() > 0 ==> !white_space(crate::paths::trimmed(s)[0])
            && !white_space(crate::paths::trimmed(s).last()),
{
    crate::paths::lemma_trimmed(s);
    let i = lemma_trim_start_skip(s);
    let t = s.skip(i);
    let m = lemma_trim_end_take(t);
    assert(crate::paths::trimmed(s) == t.take(m));
    assert(t.take(m) =~= s.subrange(i, i + m));
    assert forall|k: int| i + m <= k < s.len() implies white_space(#[trigger] s[k]) by {
        assert(s[k] == t[k - i]);
    }
}

proof fn lemma_trim_start_skip(s: Seq<char>) -> (i: int)
    ensures
        0 <= i <= s.len(),
        crate::paths::trim_start(s) == s.skip(i),
        forall|k: int| 0 <= k < i ==> white_space(#[trigger] s[k]),
    decreases s.len(),
{
    if s.len() > 0 && white_space(s[0]) {
        let i = lemma_trim_start_skip(s.drop_first());
        assert(s.drop_first().skip(i) =~= s.skip(i + 1));
        assert forall|k: int| 0 <= k < i + 1 implies white_space(#[trigger] s[k]) by {
            if k > 0 {
                assert(s[k] == s.drop_first()[k - 1]);
            }
        }
        i + 1
    } else {
        assert(s.skip(0) =~= s);
        0
    }
}

proof fn lemma_trim_end_take(s: Seq<char>) -> (m: int)
    ensures
        0 <= m <= s.len(),
        crate::paths::trim_end(s) == s.take(m),
        forall|k: int| m <= k < s.len() ==> white_space(#[trigger] s[k]),
    decreases s.len(),
{
    if s.len() > 0 && white_space(s.last()) {
        let m = lemma_trim_end_take(s.drop_last());
        assert(s.drop_last().take(m) =~= s.take(m));
        assert forall|k: int| m <= k < s.len() implies white_space(#[trigger] s[k]) by {
            if k < s.len() - 1 {
                assert(s[k] == s.drop_last()[k]);
            }
        }
        m
    } else {
        assert(s.take(s.len() as int) =~= s);
        s.len() as int
    }
}

/// Stripping quotes removes one matching pair of enclosing quotes (`"` or `'`) and
/// nothing else; a text not enclosed in matching quotes stays as it is.
pub proof fn law_without_quotes(m: Seq<char>, s: Seq<char>)
    ensures
        crate::sql::without_quotes(seq!['"'] + m + seq!['"']) == m,
        crate::sql::without_quotes(seq!['\''] + m + seq!['\'']) == m,
        (s.len() == 0 || (s[0] != '"' && s[0] != '\'')) ==> crate::sql::without_quotes(s) == s,
{
    assert((seq!['"'] + m + seq!['"']).subrange(1, m.len() as int + 1) =~= m);
    assert((seq!['\''] + m + seq!['\'']).subrange(1, m.len() as int + 1) =~= m);
}

} // verus!

verus! {

/// The comma-free pieces of an `ext` value: a piece contributes its trimmed text
/// unless that is empty, and two pieces separated by a comma contribute in order.
pub proof fn law_ext_list(a: Seq<char>, b: Seq<char>)
    requires
        forall|i: int| 0 <= i < a.len() ==> #[trigger] a[i] != ',',
        forall|i: int| 0 <= i < b.len() ==> #[trigger] b[i] != ',',
    ensures
        crate::paths::ext_list(a) == kept_piece(a),
        crate::paths::ext_list(a + seq![','] + b) == kept_piece(a) + kept_piece(b),
{
    reveal(Seq::filter);
    assert forall|i: int| 0 <= i < a.len() implies !seq![','].contains(#[trigger] a[i]) by {
        if seq![','].contains(a[i]) {
            assert(seq![','][0] == a[i]);
        }
    }
    assert forall|i: int| 0 <= i < b.len() implies !seq![','].contains(#[trigger] b[i]) by {
        if seq![','].contains(b[i]) {
            assert(seq![','][0] == b[i]);
        }
    }
    assert(seq![','].contains(',')) by {
        assert(seq![','][0] == ',');
    }
    lemma_split_none(a, seq![',']);
    lemma_split_two(a, ',', b, seq![',']);
    let one = split_on(a, seq![',']).map_values(|w: Seq<char>| crate::paths::trimmed(w));
    assert(one =~= seq![crate::paths::trimmed(a)]);
    assert(one.drop_last() =~= Seq::<Seq<char>>::empty());
    assert(one.last() == crate::paths::trimmed(a));
    assert(Seq::<Seq<char>>::empty().filter(crate::paths::non_empty()) =~= Seq::<Seq<char>>::empty());
    assert(one.drop_last().filter(crate::paths::non_empty()) =~= Seq::<Seq<char>>::empty());
    assert(one.filter(crate::paths::non_empty()) =~= kept_piece(a));
    let two = split_on(a + seq![','] + b, seq![',']).map_values(|w: Seq<char>| crate::paths::trimmed(w));
    assert(two =~= seq![crate::paths::trimmed(a), crate::paths::trimmed(b)]);
    assert(two.drop_last() =~= one);
    assert(two.last() == crate::paths::trimmed(b));
    assert(two.filter(crate::paths::non_empty()) =~= kept_piece(a) + kept_piece(b));
}

/// The trimmed piece, unless it is empty.
pub open spec fn kept_piece(w: Seq<char>) -> Seq<Seq<char>> {
    if crate::paths::trimmed(w).len() > 0 {
        seq![crate::paths::trimmed(w)]
    } else {
        Seq::empty()
    }
}

/// The derived methods' names, calls and receivers.
pub proof fn law_method_names(struct_name: Seq<char>, fields: Seq<FieldDef>, f: Seq<char>)
    ensures
        ({
            let sel = crate::sql::select_by_plan(struct_name, fields, f);
            let upd = crate::sql::update_by_plan(struct_name, fields, f);
            let del = crate::sql::delete_by_plan(struct_name, f);
            let ins = crate::sql::insert_plan(struct_name, fields);
            let all = crate::sql::select_all_plan(struct_name, fields);
            let mig = crate::sql::migration_plans(struct_name, fields);
            &&& sel.name == "sql_select_by_"@ + f && sel.call is Query && sel.takes_self
            &&& upd.name == "sql_update_by_"@ + f && upd.call is Execute && upd.takes_self
            &&& del.name == "sql_delete_by_"@ + f && del.call is Execute && del.takes_self
            &&& ins.name == "sql_insert"@ && ins.call is Execute && ins.takes_self
            &&& all.name == "sql_select_all"@ && all.call is Query && all.takes_self
            &&& mig.len() == 2
            &&& mig[0].name == "up_migrations_temporary_table_if_not_exists"@ && mig[0].call is Execute
                && !mig[0].takes_self && mig[0].params.len() == 0
            &&& mig[1].name == "up_migrations_table_if_not_exists"@ && mig[1].call is Execute
                && !mig[1].takes_self && mig[1].params.len() == 0
        }),
{
}

/// The migrations define one column per field, in field order: the field name, a
/// space, then the SQL read from the field's attribute.
pub proof fn law_column_defs(fields: Seq<FieldDef>)
    ensures
        crate::sql::column_defs(fields).len() == fields.len(),
        forall|i: int| 0 <= i < fields.len() ==> #[trigger] crate::sql::column_defs(fields)[i]
            == fields[i].name@ + seq![' '] + crate::sql::sql_text(fields[i].sql->0@),
{
    reveal_strlit(" ");
    assert(" "@ =~= seq![' ']);
}

} // verus!

verus! {

/// Splitting at a separator character splits each side independently: the pieces
/// of `x c y` are those of `x` followed by those of `y`; an empty text is one empty
/// piece.
pub proof fn law_split(x: Seq<char>, c: char, y: Seq<char>, seps: Seq<char>)
    requires
        seps.contains(c),
    ensures
        split_on(Seq::empty(), seps) == seq![Seq::<char>::empty()],
        split_on(x + seq![c] + y, seps) == split_on(x, seps) + split_on(y, seps),
    decreases y.len(),
{
    lemma_split_on_nonempty(x, seps);
    if y.len() == 0 {
        let xc = x + seq![c];
        assert(xc.drop_last() =~= x);
        assert(xc.last() == c);
        assert(xc + y =~= xc);
        assert(split_on(x, seps) + split_on(y, seps) =~= split_on(x, seps).push(Seq::<char>::empty()));
    } else {
        law_split(x, c, y.drop_last(), seps);
        lemma_split_on_nonempty(y.drop_last(), seps);
        let s = x + seq![c] + y;
        assert(s.drop_last() =~= x + seq![c] + y.drop_last());
        assert(s.last() == y.last());
        let px = split_on(x, seps);
        let py = split_on(y.drop_last(), seps);
        if seps.contains(y.last()) {
            assert((px + py).push(Seq::<char>::empty()) =~= px + py.push(Seq::<char>::empty()));
        } else {
            assert((px + py).drop_last() =~= px + py.drop_last());
            assert((px + py).last() == py.last());
            assert((px + py).drop_last().push((px + py).last().push(y.last()))
                =~= px + py.drop_last().push(py.last().push(y.last())));
        }
    }
}

/// The column definition read from an attribute's token text: a string literal's
/// value when the text is one; else, when it parses as a literal holding a string, that
/// string; else the text with one pair of enclosing quotes removed.
pub proof fn law_sql_text(t: Seq<char>)
    ensures
        crate::lit::lit_str_value(t) is Some ==> crate::sql::sql_text(t) == crate::lit::lit_str_value(t)->0,
        crate::lit::lit_str_value(t) is None && crate::lit::lit_as_str_value(t) is Some
            ==> crate::sql::sql_text(t) == crate::lit::lit_as_str_value(t)->0,
        crate::lit::lit_str_value(t) is None && crate::lit::lit_as_str_value(t) is None
            ==> crate::sql::sql_text(t) == crate::sql::without_quotes(t),
{
}

/// Adding a field adds at most one retain arm, at the end: the field's variant with
/// its type's rule, when the type has one.
pub proof fn law_retain_plan_push(struct_name: Seq<char>, fs: Seq<FieldDef>, g: FieldDef)
    ensures
        crate::parser::retain_plan(struct_name, Seq::empty()) == Seq::<(Seq<char>, crate::parser::RetainRule)>::empty(),
        crate::parser::retain_plan(struct_name, fs.push(g)) == match crate::parser::retain_rule(g.ty) {
            Some(r) => crate::parser::retain_plan(struct_name, fs).push(
                (struct_name + crate::parser::capitalized(g.name@), r)),
            None => crate::parser::retain_plan(struct_name, fs),
        },
{
    assert(fs.push(g).drop_last() =~= fs);
    assert(fs.push(g).last() == g);
}

} // verus!

verus! {

/// Empty words contribute nothing: a separator (`-`, `_` or ` `) in front of a plain
/// word leaves just the word's capital form.
pub proof fn law_ident_empty_word(sep: char, w: Seq<char>)
    requires
        plain_word(w),
        sep == '-' || sep == '_' || sep == ' ',
        starts_validly(capital(w)),
    ensures
        valid_ident(seq![sep] + w) == capital(w),
{
    let e = Seq::<char>::empty();
    let s = seq![sep] + w;
    assert(e + seq![sep] + w =~= s);
    assert forall|i: int| 0 <= i < s.len() implies #[trigger] s[i] != '&' && s[i] != '.' && s[i] != '/' by {
        if i > 0 {
            assert(s[i] == w[i - 1]);
        }
    }
    lemma_replace_none(s, '&', seq!['A', 'n', 'd']);
    lemma_replace_none(s, '.', seq![middle_dot()]);
    assert(word_separators().contains(sep)) by {
        if sep == '-' {
            assert(word_separators()[0] == sep);
        } else if sep == '_' {
            assert(word_separators()[1] == sep);
        } else {
            assert(word_separators()[2] == sep);
        }
    }
    assert forall|i: int| 0 <= i < w.len() implies !word_separators().contains(#[trigger] w[i]) by {
        if word_separators().contains(w[i]) {
            let k = choose|k: int| 0 <= k < 3 && word_separators()[k] == w[i];
        }
    }
    lemma_split_two(e, sep, w, word_separators());
    let words = seq![e, w];
    assert(words.drop_last() =~= seq![e]);
    assert(words.last() == w);
    assert(seq![e].drop_last() =~= Seq::<Seq<char>>::empty());
    assert(seq![e].last() == e);
    assert(pascal_case(Seq::<Seq<char>>::empty()) == Seq::<char>::empty());
    assert(pascal_case(seq![e]) == pascal_case(seq![e].drop_last()) + Seq::<char>::empty());
    assert(pascal_case(seq![e]) =~= Seq::<char>::empty());
    assert(pascal_case(words) == pascal_case(words.drop_last()) + (uppercase_of(w[0]) + w.drop_first()));
    assert(pascal_case(words) =~= capital(w));
    crate::ident::lemma_with_valid_start(capital(w));
    lemma_ident_single(s, capital(w));
}

} // verus!
