//! Splitting a file's text into lines on `'\n'` and joining them back.
//!
//! The split keeps every segment, including a final empty one after a
//! trailing newline, so that joining the split of a text yields the text
//! itself byte for byte. The rewrite engine relies on this to leave
//! untouched lines byte-identical when a file is written back.

use vstd::prelude::*;
use vstd::string::*;
use crate::text::{char_pos, lemma_char_pos, lemma_char_pos_unique};

verus! {

/// The segments of `s` between `'\n'` characters, in order, empty
/// segments included.
pub open spec fn split_lines(s: Seq<char>) -> Seq<Seq<char>>
    decreases s.len(),
{
    let b = char_pos(s, '\n');
    if b >= s.len() {
        seq![s]
    } else {
        seq![s.subrange(0, b as int)] + split_lines(s.skip(b as int + 1))
    }
}

/// The segments interleaved with `'\n'` again.
pub open spec fn join_lines(ls: Seq<Seq<char>>) -> Seq<char>
    decreases ls.len(),
{
    if ls.len() == 0 {
        Seq::empty()
    } else if ls.len() == 1 {
        ls[0]
    } else {
        ls[0] + seq!['\n'] + join_lines(ls.drop_first())
    }
}

pub proof fn lemma_split_lines_len(s: Seq<char>)
    ensures
        split_lines(s).len() >= 1,
{
}

/// Joining the lines of a split yields the original text: the round trip
/// through the line representation loses nothing.
pub proof fn lemma_join_split(s: Seq<char>)
    ensures
        join_lines(split_lines(s)) == s,
    decreases s.len(),
{
    lemma_char_pos(s, '\n');
    let b = char_pos(s, '\n');
    if b >= s.len() {
    } else {
        let suf = s.skip(b as int + 1);
        lemma_join_split(suf);
        lemma_split_lines_len(suf);
        let parts = seq![s.subrange(0, b as int)] + split_lines(suf);
        assert(parts.len() >= 2);
        assert(parts.drop_first() =~= split_lines(suf));
        assert(join_lines(parts) == s.subrange(0, b as int) + seq!['\n'] + suf);
        assert(s.subrange(0, b as int) + seq!['\n'] + suf =~= s);
    }
}

/// Appending one more segment extends the join by a `'\n'` separator.
pub proof fn lemma_join_push(ls: Seq<Seq<char>>, x: Seq<char>)
    ensures
        ls.len() == 0 ==> join_lines(ls.push(x)) == x,
        ls.len() >= 1 ==> join_lines(ls.push(x)) == join_lines(ls) + seq!['\n'] + x,
    decreases ls.len(),
{
    if ls.len() == 0 {
        assert(ls.push(x)[0] == x);
    } else if ls.len() == 1 {
        assert(ls.push(x).drop_first() =~= seq![x]);
        assert(ls.push(x)[0] == ls[0]);
        assert(join_lines(seq![x]) == x);
        assert(join_lines(ls.push(x)) == ls[0] + seq!['\n'] + x);
    } else {
        lemma_join_push(ls.drop_first(), x);
        assert(ls.push(x).drop_first() =~= ls.drop_first().push(x));
        assert(join_lines(ls) + seq!['\n'] + x =~= ls[0] + seq!['\n'] + (join_lines(
            ls.drop_first(),
        ) + seq!['\n'] + x));
    }
}

/// The lines of `s`, split on `'\n'`, with empty segments kept.
pub fn split_str_lines(s: &str) -> (r: Vec<String>)
    ensures
        r.deep_view() == split_lines(s@),
{
    let mut r: Vec<String> = Vec::new();
    let n = s.unicode_len();
    let mut start: usize = 0;
    proof {
        assert(s@.skip(0) =~= s@);
    }
    loop
        invariant
            0 <= start <= n,
            n == s@.len(),
            split_lines(s@) == r.deep_view() + split_lines(s@.skip(start as int)),
        decreases n - start,
    {
        let ghost rem = s@.skip(start as int);
        let mut e = start;
        while e < n && s.get_char(e) != '\n'
            invariant
                start <= e <= n,
                n == s@.len(),
                forall|k: int| start <= k < e ==> s@[k] != '\n',
            decreases n - e,
        {
            e = e + 1;
        }
        proof {
            assert(forall|k: int| 0 <= k < rem.len() ==> rem[k] == s@[k + start]);
            lemma_char_pos_unique(rem, '\n', e - start);
        }
        let chunk = s.substring_char(start, e);
        let owned = String::from_str(chunk);
        proof {
            assert(rem.subrange(0, e - start) =~= s@.subrange(start as int, e as int));
        }
        r.push(owned);
        if e == n {
            proof {
                assert(rem =~= s@.subrange(start as int, e as int));
                assert(split_lines(rem) == seq![rem]);
                assert(r.deep_view() =~= split_lines(s@));
            }
            return r;
        }
        proof {
            assert(rem.skip(e - start + 1) =~= s@.skip(e + 1));
            assert(split_lines(rem) == seq![rem.subrange(0, e - start)] + split_lines(
                s@.skip(e + 1),
            ));
            assert(r.deep_view() + split_lines(s@.skip(e + 1)) =~= split_lines(s@));
        }
        start = e + 1;
    }
}

/// The segments joined with `'\n'` separators.
pub fn join_str_lines(v: &Vec<String>) -> (r: String)
    ensures
        r@ == join_lines(v.deep_view()),
{
    let mut out = String::new();
    let mut i: usize = 0;
    while i < v.len()
        invariant
            0 <= i <= v.len(),
            i == 0 ==> out@ == Seq::<char>::empty(),
            i >= 1 ==> out@ == join_lines(v.deep_view().take(i as int)),
        decreases v.len() - i,
    {
        proof {
            reveal_strlit("\n");
        }
        if i > 0 {
            out.append("\n");
        }
        out.append(v[i].as_str());
        proof {
            let dv = v.deep_view();
            assert(dv.take(i as int).push(dv[i as int]) =~= dv.take(i + 1));
            lemma_join_push(dv.take(i as int), dv[i as int]);
            if i == 0 {
                assert(out@ =~= dv[0]);
                assert(join_lines(dv.take(1)) == dv[0]);
            }
        }
        i = i + 1;
    }
    proof {
        if v.len() == 0 {
        } else {
            assert(v.deep_view().take(v.len() as int) =~= v.deep_view());
        }
    }
    out
}

} // verus!
