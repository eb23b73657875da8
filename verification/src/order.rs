//! Lexicographic order on strings and a stable sort of path variants by identifier.
use vstd::prelude::*;
use crate::text::chars_of;

verus! {

/// One variant of a generated path enum: its identifier and the logical path it
/// stands for.
pub struct PathVariant {
    /// The variant's identifier.
    pub ident: String,
    /// The logical path that `to_str` returns for the variant.
    pub path: String,
}

/// `a <= b` in the lexicographic order of characters by code point, the order in
/// which `String`'s `Ord` compares (its byte order on UTF-8 agrees with it).
pub open spec fn lex_le(a: Seq<char>, b: Seq<char>) -> bool
    decreases a.len(),
{
    if a.len() == 0 {
        true
    } else if b.len() == 0 {
        false
    } else if a[0] != b[0] {
        a[0] < b[0]
    } else {
        lex_le(a.drop_first(), b.drop_first())
    }
}

/// The order is reflexive.
pub proof fn lemma_lex_le_reflexive(a: Seq<char>)
    ensures
        lex_le(a, a),
    decreases a.len(),
{
    if a.len() > 0 {
        lemma_lex_le_reflexive(a.drop_first());
    }
}

/// The order is total.
pub proof fn lemma_lex_le_total(a: Seq<char>, b: Seq<char>)
    ensures
        lex_le(a, b) || lex_le(b, a),
    decreases a.len(),
{
    if a.len() > 0 && b.len() > 0 && a[0] == b[0] {
        lemma_lex_le_total(a.drop_first(), b.drop_first());
    }
}

/// The order is transitive.
pub proof fn lemma_lex_le_transitive(a: Seq<char>, b: Seq<char>, c: Seq<char>)
    requires
        lex_le(a, b),
        lex_le(b, c),
    ensures
        lex_le(a, c),
    decreases a.len(),
{
    if a.len() > 0 && b.len() > 0 && c.len() > 0 && a[0] == b[0] && b[0] == c[0] {
        lemma_lex_le_transitive(a.drop_first(), b.drop_first(), c.drop_first());
    }
}

/// The order is antisymmetric.
pub proof fn lemma_lex_le_antisymmetric(a: Seq<char>, b: Seq<char>)
    requires
        lex_le(a, b),
        lex_le(b, a),
    ensures
        a == b,
    decreases a.len(),
{
    if a.len() > 0 && b.len() > 0 {
        lemma_lex_le_antisymmetric(a.drop_first(), b.drop_first());
        assert(a =~= seq![a[0]] + a.drop_first());
        assert(b =~= seq![b[0]] + b.drop_first());
    } else {
        assert(a =~= b);
    }
}

/// Whether `a <= b` lexicographically.
pub fn text_le(a: &str, b: &str) -> (res: bool)
    ensures
        res == lex_le(a@, b@),
{
    let x = chars_of(a);
    let y = chars_of(b);
    let mut i: usize = 0;
    assert(a@.skip(0) =~= a@);
    assert(b@.skip(0) =~= b@);
    while i < x.len() && i < y.len()
        invariant
            i <= x.len(),
            i <= y.len(),
            x@ == a@,
            y@ == b@,
            lex_le(a@, b@) == lex_le(a@.skip(i as int), b@.skip(i as int)),
        decreases x.len() - i,
    {
        if x[i] != y[i] {
            assert(a@.skip(i as int)[0] == x@[i as int]);
            assert(b@.skip(i as int)[0] == y@[i as int]);
            return x[i] < y[i];
        }
        assert(a@.skip(i as int).drop_first() =~= a@.skip(i + 1));
        assert(b@.skip(i as int).drop_first() =~= b@.skip(i + 1));
        i += 1;
    }
    i == x.len()
}

/// The identifiers of a sequence of variants are in non-decreasing order.
pub open spec fn sorted_by_ident(s: Seq<PathVariant>) -> bool {
    forall|i: int, j: int| 0 <= i < j < s.len() ==> lex_le(s[i].ident@, s[j].ident@)
}

/// The variants of `s` whose identifier is `k`, in their order in `s`.
pub open spec fn with_ident(s: Seq<PathVariant>, k: Seq<char>) -> Seq<PathVariant> {
    s.filter(ident_is(k))
}

/// The predicate "the variant's identifier is `k`".
pub open spec fn ident_is(k: Seq<char>) -> spec_fn(PathVariant) -> bool {
    |v: PathVariant| v.ident@ == k
}

proof fn lemma_filter_none(s: Seq<PathVariant>, k: Seq<char>)
    requires
        forall|i: int| 0 <= i < s.len() ==> s[i].ident@ != k,
    ensures
        with_ident(s, k) == Seq::<PathVariant>::empty(),
    decreases s.len(),
{
    reveal(Seq::filter);
    if s.len() > 0 {
        lemma_filter_none(s.drop_last(), k);
    }
    assert(with_ident(s, k) =~= Seq::<PathVariant>::empty());
}

/// Sorts the variants by identifier, keeping variants with equal identifiers in
/// their given order (a stable sort, as `slice::sort_by` is).
pub fn sort_by_ident(items: Vec<PathVariant>) -> (res: Vec<PathVariant>)
    ensures
        sorted_by_ident(res@),
        forall|k: Seq<char>| #[trigger] with_ident(res@, k) == with_ident(items@, k),
        res@.to_multiset() == items@.to_multiset(),
{
    let ghost orig = items@;
    let mut rest = items;
    let mut out: Vec<PathVariant> = Vec::new();
    assert(orig.skip(orig.len() as int) =~= Seq::<PathVariant>::empty());
    assert(orig.take(orig.len() as int) =~= orig);
    proof {
        reveal(Seq::filter);
    }
    while rest.len() > 0
        invariant
            rest@ == orig.take(rest@.len() as int),
            rest@.len() <= orig.len(),
            sorted_by_ident(out@),
            forall|k: Seq<char>| #[trigger] with_ident(out@, k) == with_ident(orig.skip(rest@.len() as int), k),
            out@.to_multiset() == orig.skip(rest@.len() as int).to_multiset(),
        decreases rest.len(),
    {
        let ghost n = rest@.len() as int;
        let x = rest.pop().unwrap();
        let ghost suffix = orig.skip(n);
        let ghost suffix2 = orig.skip(n - 1);
        assert(rest@ =~= orig.take(n - 1));
        assert(suffix2 =~= seq![x] + suffix);
        let mut p: usize = 0;
        while p < out.len() && !text_le(x.ident.as_str(), out[p].ident.as_str())
            invariant
                p <= out.len(),
                forall|q: int| 0 <= q < p ==> !lex_le(x.ident@, #[trigger] out@[q].ident@),
            decreases out.len() - p,
        {
            p += 1;
        }
        let ghost before = out@;
        proof {
            assert forall|q: int| p <= q < before.len() implies lex_le(x.ident@, #[trigger] before[q].ident@) by {
                assert(lex_le(x.ident@, before[p as int].ident@));
                if q > p {
                    lemma_lex_le_transitive(x.ident@, before[p as int].ident@, before[q].ident@);
                }
            }
            assert forall|q: int| 0 <= q < p implies lex_le(#[trigger] before[q].ident@, x.ident@) by {
                lemma_lex_le_total(x.ident@, before[q].ident@);
            }
            assert forall|q: int| 0 <= q < p implies (#[trigger] before[q].ident@) != x.ident@ by {
                lemma_lex_le_reflexive(x.ident@);
            }
        }
        out.insert(p, x);
        proof {
            let after = out@;
            assert(after =~= before.take(p as int) + seq![x] + before.skip(p as int));
            assert(before =~= before.take(p as int) + before.skip(p as int));
            assert forall|i: int, j: int| 0 <= i < j < after.len() implies lex_le(after[i].ident@, after[j].ident@) by {
                if i < p && j == p {
                } else if i < p && j > p {
                    lemma_lex_le_transitive(before[i].ident@, x.ident@, before[j - 1].ident@);
                } else if i == p {
                } else if j < p {
                } else {
                    assert(after[i] == before[i - 1]);
                    assert(after[j] == before[j - 1]);
                }
            }
            assert forall|k: Seq<char>| #[trigger] with_ident(out@, k) == with_ident(orig.skip(n - 1), k) by {
                let pred = ident_is(k);
                let front = before.take(p as int);
                let back = before.skip(p as int);
                Seq::filter_distributes_over_add(front + seq![x], back, pred);
                Seq::filter_distributes_over_add(front, seq![x], pred);
                Seq::filter_distributes_over_add(front, back, pred);
                suffix.lemma_filter_prepend(x, pred);
                reveal(Seq::filter);
                assert(seq![x].drop_last() =~= Seq::<PathVariant>::empty());
                assert(suffix2.filter(pred) == (if pred(x) { seq![x] } else { Seq::<PathVariant>::empty() }) + suffix.filter(pred));
                assert(with_ident(before, k) == front.filter(pred) + back.filter(pred));
                assert(with_ident(out@, k) == front.filter(pred) + seq![x].filter(pred) + back.filter(pred));
                if k == x.ident@ {
                    assert(seq![x].filter(pred) =~= seq![x]);
                    assert forall|q: int| 0 <= q < front.len() implies front[q].ident@ != k by {
                        assert(front[q] == before[q]);
                    }
                    lemma_filter_none(front, k);
                    assert(with_ident(out@, k) =~= seq![x] + back.filter(pred));
                    assert(with_ident(before, k) =~= back.filter(pred));
                } else {
                    assert(seq![x].filter(pred) =~= Seq::<PathVariant>::empty());
                    assert(with_ident(out@, k) =~= front.filter(pred) + back.filter(pred));
                }
            }
            vstd::seq_lib::lemma_multiset_commutative(seq![x], suffix);
            vstd::seq_lib::lemma_multiset_commutative(before.take(p as int), seq![x]);
            vstd::seq_lib::lemma_multiset_commutative(before.take(p as int) + seq![x], before.skip(p as int));
            vstd::seq_lib::lemma_multiset_commutative(before.take(p as int), before.skip(p as int));
        }
    }
    assert(orig.skip(0) =~= orig);
    out
}

} // verus!
