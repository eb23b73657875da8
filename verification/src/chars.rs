//! Character-sequence transformations: splitting, replacing and joining.
use vstd::prelude::*;
use crate::text::join;

verus! {

/// The character sequences held by a sequence of character vectors.
pub open spec fn char_views(s: Seq<Vec<char>>) -> Seq<Seq<char>> {
    s.map_values(|v: Vec<char>| v@)
}

/// `s` split at every character that occurs in `seps`, as `str::split` with a
/// character pattern does: `n` separators give `n + 1` pieces, some possibly empty.
pub open spec fn split_on(s: Seq<char>, seps: Seq<char>) -> Seq<Seq<char>>
    decreases s.len(),
{
    if s.len() == 0 {
        seq![Seq::empty()]
    } else {
        let init = split_on(s.drop_last(), seps);
        if seps.contains(s.last()) {
            init.push(Seq::empty())
        } else {
            init.drop_last().push(init.last().push(s.last()))
        }
    }
}

/// `split_on` always gives at least one piece.
pub proof fn lemma_split_on_nonempty(s: Seq<char>, seps: Seq<char>)
    ensures
        split_on(s, seps).len() >= 1,
    decreases s.len(),
{
    if s.len() > 0 {
        lemma_split_on_nonempty(s.drop_last(), seps);
    }
}

/// Splits `s` at every character that occurs in `seps`.
pub fn split_chars(s: &Vec<char>, seps: &Vec<char>) -> (res: Vec<Vec<char>>)
    ensures
        char_views(res@) == split_on(s@, seps@),
{
    let mut out: Vec<Vec<char>> = Vec::new();
    let mut cur: Vec<char> = Vec::new();
    let mut i: usize = 0;
    while i < s.len()
        invariant
            i <= s.len(),
            char_views(out@).push(cur@) == split_on(s@.take(i as int), seps@),
        decreases s.len() - i,
    {
        let c = s[i];
        let ghost prev = s@.take(i as int);
        proof {
            assert(s@.take(i + 1).drop_last() =~= prev);
            assert(s@.take(i + 1).last() == c);
            lemma_split_on_nonempty(prev, seps@);
        }
        let mut is_sep = false;
        let mut j: usize = 0;
        while j < seps.len()
            invariant
                j <= seps.len(),
                is_sep == (exists|k: int| 0 <= k < j && seps@[k] == c),
            decreases seps.len() - j,
        {
            if seps[j] == c {
                is_sep = true;
            }
            j += 1;
        }
        assert(is_sep == seps@.contains(c));
        if is_sep {
            let ghost old_out = char_views(out@);
            let done = cur;
            let ghost done_view = done@;
            out.push(done);
            assert(char_views(out@) =~= old_out.push(done_view));
            cur = Vec::new();
            assert(char_views(out@).push(cur@) =~= split_on(s@.take(i + 1), seps@));
        } else {
            let ghost before = char_views(out@).push(cur@);
            cur.push(c);
            assert(before.drop_last() =~= char_views(out@));
            assert(char_views(out@).push(cur@) =~= split_on(s@.take(i + 1), seps@));
        }
        i += 1;
    }
    assert(s@.take(s.len() as int) =~= s@);
    let ghost old_out = char_views(out@);
    let ghost cur_view = cur@;
    out.push(cur);
    assert(char_views(out@) =~= old_out.push(cur_view));
    out
}

/// `s` with every occurrence of `c` replaced by `r`, as `str::replace` does.
pub open spec fn replace_char(s: Seq<char>, c: char, r: Seq<char>) -> Seq<char>
    decreases s.len(),
{
    if s.len() == 0 {
        Seq::empty()
    } else {
        replace_char(s.drop_last(), c, r) + if s.last() == c {
            r
        } else {
            seq![s.last()]
        }
    }
}

/// Replaces every occurrence of `c` in `s` by `r`.
pub fn replace_chars(s: &Vec<char>, c: char, r: &Vec<char>) -> (res: Vec<char>)
    ensures
        res@ == replace_char(s@, c, r@),
{
    let mut out: Vec<char> = Vec::new();
    let mut i: usize = 0;
    while i < s.len()
        invariant
            i <= s.len(),
            out@ == replace_char(s@.take(i as int), c, r@),
        decreases s.len() - i,
    {
        proof {
            assert(s@.take(i + 1).drop_last() =~= s@.take(i as int));
        }
        if s[i] == c {
            let mut j: usize = 0;
            let ghost base = out@;
            while j < r.len()
                invariant
                    j <= r.len(),
                    out@ == base + r@.take(j as int),
                decreases r.len() - j,
            {
                out.push(r[j]);
                j += 1;
                assert(out@ =~= base + r@.take(j as int));
            }
            assert(r@.take(r.len() as int) =~= r@);
        } else {
            out.push(s[i]);
        }
        assert(out@ =~= replace_char(s@.take(i + 1), c, r@));
        i += 1;
    }
    assert(s@.take(s.len() as int) =~= s@);
    out
}

/// Appends all of `src` to `dst`.
pub fn extend_chars(dst: &mut Vec<char>, src: &Vec<char>)
    ensures
        final(dst)@ == old(dst)@ + src@,
{
    let mut j: usize = 0;
    while j < src.len()
        invariant
            j <= src.len(),
            dst@ == old(dst)@ + src@.take(j as int),
        decreases src.len() - j,
    {
        dst.push(src[j]);
        j += 1;
        assert(dst@ =~= old(dst)@ + src@.take(j as int));
    }
    assert(src@.take(src.len() as int) =~= src@);
}

/// Joins the pieces of `parts` with `sep` between neighbours.
pub fn join_chars(parts: &Vec<Vec<char>>, sep: &Vec<char>) -> (res: Vec<char>)
    ensures
        res@ == join(char_views(parts@), sep@),
{
    let mut out: Vec<char> = Vec::new();
    let mut i: usize = 0;
    while i < parts.len()
        invariant
            i <= parts.len(),
            out@ == join(char_views(parts@).take(i as int), sep@),
        decreases parts.len() - i,
    {
        let ghost before = char_views(parts@).take(i as int);
        if i > 0 {
            extend_chars(&mut out, sep);
        }
        extend_chars(&mut out, &parts[i]);
        proof {
            let now = char_views(parts@).take(i + 1);
            assert(now.drop_last() =~= before);
            assert(now.last() == parts@[i as int]@);
            if i == 0 {
                assert(out@ =~= now[0]);
            }
        }
        i += 1;
    }
    assert(char_views(parts@).take(parts.len() as int) =~= char_views(parts@));
    out
}

} // verus!
