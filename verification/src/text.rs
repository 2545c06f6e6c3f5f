//! Character-level text utilities shared by the line indexer and the
//! rewrite engine: whitespace trimming, identifier runs, prefix tests,
//! character search and substring containment, all specified over
//! `Seq<char>` views.

use vstd::prelude::*;
use vstd::string::*;

verus! {

/// Whitespace as the configuration grammar understands it.
pub open spec fn is_space_char(c: char) -> bool {
    c == ' ' || c == '\t' || c == '\r' || c == '\n'
}

pub fn is_space(c: char) -> (r: bool)
    ensures
        r == is_space_char(c),
{
    c == ' ' || c == '\t' || c == '\r' || c == '\n'
}

/// Identifier characters: letters, digits and the underscore.
pub open spec fn is_ident_char(c: char) -> bool {
    ('a' <= c && c <= 'z') || ('A' <= c && c <= 'Z') || ('0' <= c && c <= '9') || c == '_'
}

pub fn is_ident(c: char) -> (r: bool)
    ensures
        r == is_ident_char(c),
{
    ('a' <= c && c <= 'z') || ('A' <= c && c <= 'Z') || ('0' <= c && c <= '9') || c == '_'
}

/// The sequence with leading whitespace removed.
pub open spec fn trim_front(s: Seq<char>) -> Seq<char>
    decreases s.len(),
{
    if s.len() == 0 {
        s
    } else if is_space_char(s[0]) {
        trim_front(s.drop_first())
    } else {
        s
    }
}

/// The sequence with trailing whitespace removed.
pub open spec fn trim_back(s: Seq<char>) -> Seq<char>
    decreases s.len(),
{
    if s.len() == 0 {
        s
    } else if is_space_char(s.last()) {
        trim_back(s.drop_last())
    } else {
        s
    }
}

/// The sequence with surrounding whitespace removed.
pub open spec fn trimmed(s: Seq<char>) -> Seq<char> {
    trim_back(trim_front(s))
}

/// Leading whitespace up to an index of a non-space character lets
/// `trim_front` be read off as a suffix of the sequence.
pub proof fn lemma_trim_front_skip(s: Seq<char>, a: int, b: int)
    requires
        0 <= a <= b <= s.len(),
        forall|k: int| a <= k < b ==> is_space_char(s[k]),
        b == s.len() || !is_space_char(s[b]),
    ensures
        trim_front(s.skip(a)) == s.skip(b),
    decreases b - a,
{
    if a == b {
        if s.skip(a).len() == 0 {
        } else {
            assert(s.skip(a)[0] == s[a]);
        }
    } else {
        assert(s.skip(a)[0] == s[a]);
        assert(s.skip(a).drop_first() =~= s.skip(a + 1));
        lemma_trim_front_skip(s, a + 1, b);
    }
}

/// First index at or past `from` holding a non-space character.
pub fn first_non_space(s: &str, from: usize) -> (i: usize)
    requires
        from <= s@.len(),
    ensures
        from <= i <= s@.len(),
        forall|k: int| from <= k < i ==> is_space_char(s@[k]),
        i < s@.len() ==> !is_space_char(s@[i as int]),
{
    let n = s.unicode_len();
    let mut i = from;
    while i < n
        invariant
            from <= i <= n,
            n == s@.len(),
            forall|k: int| from <= k < i ==> is_space_char(s@[k]),
        decreases n - i,
    {
        if !is_space(s.get_char(i)) {
            return i;
        }
        i = i + 1;
    }
    i
}

/// The slice with surrounding whitespace removed.
pub fn trim_str<'a>(s: &'a str) -> (r: &'a str)
    ensures
        r@ == trimmed(s@),
{
    let n = s.unicode_len();
    let i = first_non_space(s, 0);
    let mut j = n;
    while j > i && is_space(s.get_char(j - 1))
        invariant
            i <= j <= n,
            n == s@.len(),
            i <= s@.len(),
            forall|k: int| j <= k < n ==> is_space_char(s@[k]),
        decreases j,
    {
        j = j - 1;
    }
    proof {
        lemma_trim_front_skip(s@, 0, i as int);
        assert(s@.skip(0) =~= s@);
        lemma_trim_back_take(s@.skip(i as int), j - i);
        assert(forall|k: int|
            j - i <= k < s@.skip(i as int).len() ==> s@.skip(i as int)[k] == s@[k + i]);
        assert(s@.skip(i as int).take(j - i) =~= s@.subrange(i as int, j as int));
    }
    s.substring_char(i, j)
}

/// Trailing whitespace down to an index past a non-space character lets
/// `trim_back` be read off as a prefix of the sequence.
pub proof fn lemma_trim_back_take(s: Seq<char>, b: int)
    requires
        0 <= b <= s.len(),
        forall|k: int| b <= k < s.len() ==> is_space_char(s[k]),
        b == 0 || !is_space_char(s[b - 1]),
    ensures
        trim_back(s) == s.take(b),
    decreases s.len(),
{
    if s.len() == b {
        assert(s.take(b) =~= s);
        if b > 0 {
            assert(s.last() == s[b - 1]);
        }
    } else {
        assert(is_space_char(s.last()));
        assert(s.drop_last() =~= s.take(s.len() - 1));
        lemma_trim_back_take(s.take(s.len() - 1), b);
        assert(s.take(s.len() - 1).take(b) =~= s.take(b));
    }
}

/// First index of `c` in `s`, or `s.len()` when `c` does not occur.
pub open spec fn char_pos(s: Seq<char>, c: char) -> nat
    decreases s.len(),
{
    if s.len() == 0 {
        0
    } else if s[0] == c {
        0
    } else {
        1 + char_pos(s.drop_first(), c)
    }
}

pub proof fn lemma_char_pos(s: Seq<char>, c: char)
    ensures
        char_pos(s, c) <= s.len(),
        char_pos(s, c) < s.len() ==> s[char_pos(s, c) as int] == c,
        forall|k: int| 0 <= k < char_pos(s, c) ==> s[k] != c,
    decreases s.len(),
{
    if s.len() == 0 {
    } else if s[0] == c {
    } else {
        lemma_char_pos(s.drop_first(), c);
        assert forall|k: int| 0 <= k < char_pos(s, c) implies s[k] != c by {
            if k > 0 {
                assert(s.drop_first()[k - 1] == s[k]);
            }
        }
        if char_pos(s, c) < s.len() {
            assert(s.drop_first()[char_pos(s, c) - 1] == s[char_pos(s, c) as int]);
        }
    }
}

/// The first occurrence index is pinned by its characteristic properties.
pub proof fn lemma_char_pos_unique(s: Seq<char>, c: char, i: int)
    requires
        0 <= i <= s.len(),
        forall|k: int| 0 <= k < i ==> s[k] != c,
        i == s.len() || s[i] == c,
    ensures
        char_pos(s, c) == i,
{
    lemma_char_pos(s, c);
}

/// First index of `c` at or past `from`; `s@.len()` when absent.
pub fn char_pos_str(s: &str, c: char) -> (i: usize)
    ensures
        i == char_pos(s@, c),
{
    let n = s.unicode_len();
    let mut i: usize = 0;
    while i < n
        invariant
            0 <= i <= n,
            n == s@.len(),
            forall|k: int| 0 <= k < i ==> s@[k] != c,
        decreases n - i,
    {
        if s.get_char(i) == c {
            proof {
                lemma_char_pos_unique(s@, c, i as int);
            }
            return i;
        }
        i = i + 1;
    }
    proof {
        lemma_char_pos_unique(s@, c, n as int);
    }
    i
}

/// Length of the maximal prefix of identifier characters.
pub open spec fn ident_len(s: Seq<char>) -> nat
    decreases s.len(),
{
    if s.len() == 0 {
        0
    } else if !is_ident_char(s[0]) {
        0
    } else {
        1 + ident_len(s.drop_first())
    }
}

pub proof fn lemma_ident_len(s: Seq<char>)
    ensures
        ident_len(s) <= s.len(),
        ident_len(s) < s.len() ==> !is_ident_char(s[ident_len(s) as int]),
        forall|k: int| 0 <= k < ident_len(s) ==> is_ident_char(s[k]),
    decreases s.len(),
{
    if s.len() == 0 {
    } else if !is_ident_char(s[0]) {
    } else {
        lemma_ident_len(s.drop_first());
        assert forall|k: int| 0 <= k < ident_len(s) implies is_ident_char(s[k]) by {
            if k > 0 {
                assert(s.drop_first()[k - 1] == s[k]);
            }
        }
        if ident_len(s) < s.len() {
            assert(s.drop_first()[ident_len(s) - 1] == s[ident_len(s) as int]);
        }
    }
}

pub proof fn lemma_ident_len_unique(s: Seq<char>, i: int)
    requires
        0 <= i <= s.len(),
        forall|k: int| 0 <= k < i ==> is_ident_char(s[k]),
        i == s.len() || !is_ident_char(s[i]),
    ensures
        ident_len(s) == i,
{
    lemma_ident_len(s);
}

/// Length of the identifier run of `s` starting at index `from`.
pub fn ident_run_str(s: &str, from: usize) -> (r: usize)
    requires
        from <= s@.len(),
    ensures
        r == ident_len(s@.skip(from as int)),
        from + r <= s@.len(),
{
    let n = s.unicode_len();
    let mut i = from;
    while i < n && is_ident(s.get_char(i))
        invariant
            from <= i <= n,
            n == s@.len(),
            forall|k: int| from <= k < i ==> is_ident_char(s@[k]),
        decreases n - i,
    {
        i = i + 1;
    }
    proof {
        assert(forall|k: int|
            0 <= k < s@.skip(from as int).len() ==> s@.skip(from as int)[k] == s@[k + from]);
        lemma_ident_len_unique(s@.skip(from as int), i - from);
    }
    i - from
}

/// `p` is a prefix of `s`.
pub open spec fn has_prefix(s: Seq<char>, p: Seq<char>) -> bool {
    p.len() <= s.len() && s.subrange(0, p.len() as int) == p
}

pub fn has_prefix_str(s: &str, p: &str) -> (r: bool)
    ensures
        r == has_prefix(s@, p@),
{
    let n = s.unicode_len();
    let m = p.unicode_len();
    if m > n {
        return false;
    }
    let mut k: usize = 0;
    while k < m
        invariant
            0 <= k <= m,
            m <= n,
            n == s@.len(),
            m == p@.len(),
            forall|j: int| 0 <= j < k ==> s@[j] == p@[j],
        decreases m - k,
    {
        if s.get_char(k) != p.get_char(k) {
            proof {
                assert(s@.subrange(0, p@.len() as int)[k as int] != p@[k as int]);
            }
            return false;
        }
        k = k + 1;
    }
    proof {
        assert(s@.subrange(0, p@.len() as int) =~= p@);
    }
    true
}

/// `needle` occurs in `hay` starting at index `i`.
pub open spec fn contains_at(hay: Seq<char>, needle: Seq<char>, i: int) -> bool {
    0 <= i && i + needle.len() <= hay.len() && hay.subrange(i, i + needle.len()) == needle
}

/// `needle` occurs somewhere in `hay`.
pub open spec fn contains_seq(hay: Seq<char>, needle: Seq<char>) -> bool {
    exists|i: int| contains_at(hay, needle, i)
}

fn match_at(hay: &str, needle: &str, i: usize) -> (r: bool)
    requires
        i + needle@.len() <= hay@.len(),
    ensures
        r == contains_at(hay@, needle@, i as int),
{
    let n = hay.unicode_len();
    let m = needle.unicode_len();
    let mut k: usize = 0;
    while k < m
        invariant
            0 <= k <= m,
            m == needle@.len(),
            n == hay@.len(),
            i + m <= n,
            forall|j: int| 0 <= j < k ==> hay@[i + j] == needle@[j],
        decreases m - k,
    {
        if hay.get_char(i + k) != needle.get_char(k) {
            proof {
                assert(hay@.subrange(i as int, i + needle@.len())[k as int] != needle@[k as int]);
            }
            return false;
        }
        k = k + 1;
    }
    proof {
        assert(hay@.subrange(i as int, i + needle@.len()) =~= needle@);
    }
    true
}

pub fn contains_str(hay: &str, needle: &str) -> (r: bool)
    ensures
        r == contains_seq(hay@, needle@),
{
    let n = hay.unicode_len();
    let m = needle.unicode_len();
    if m > n {
        proof {
            assert(forall|i: int| !contains_at(hay@, needle@, i));
        }
        return false;
    }
    let bound = n - m;
    let mut i: usize = 0;
    loop
        invariant
            0 <= i <= bound,
            bound == n - m,
            m <= n,
            n == hay@.len(),
            m == needle@.len(),
            forall|j: int| 0 <= j < i ==> !contains_at(hay@, needle@, j),
        decreases bound - i,
    {
        if match_at(hay, needle, i) {
            return true;
        }
        if i == bound {
            proof {
                assert forall|j: int| !contains_at(hay@, needle@, j) by {
                    if j > bound {
                        assert(!(j + needle@.len() <= hay@.len()));
                    }
                }
            }
            return false;
        }
        i = i + 1;
    }
}

/// Trimming the front removes nothing but leading whitespace.
pub proof fn lemma_trim_front_basic(s: Seq<char>)
    ensures
        trim_front(s).len() <= s.len(),
        trim_front(s).len() > 0 ==> !is_space_char(trim_front(s)[0]),
    decreases s.len(),
{
    if s.len() > 0 && is_space_char(s[0]) {
        lemma_trim_front_basic(s.drop_first());
    }
}

/// First index of a whitespace character, or `s.len()` when none occurs.
pub open spec fn space_pos(s: Seq<char>) -> nat
    decreases s.len(),
{
    if s.len() == 0 {
        0
    } else if is_space_char(s[0]) {
        0
    } else {
        1 + space_pos(s.drop_first())
    }
}

pub proof fn lemma_space_pos(s: Seq<char>)
    ensures
        space_pos(s) <= s.len(),
        space_pos(s) < s.len() ==> is_space_char(s[space_pos(s) as int]),
        forall|k: int| 0 <= k < space_pos(s) ==> !is_space_char(s[k]),
    decreases s.len(),
{
    if s.len() == 0 {
    } else if is_space_char(s[0]) {
    } else {
        lemma_space_pos(s.drop_first());
        assert forall|k: int| 0 <= k < space_pos(s) implies !is_space_char(s[k]) by {
            if k > 0 {
                assert(s.drop_first()[k - 1] == s[k]);
            }
        }
        if space_pos(s) < s.len() {
            assert(s.drop_first()[space_pos(s) - 1] == s[space_pos(s) as int]);
        }
    }
}

pub proof fn lemma_space_pos_unique(s: Seq<char>, i: int)
    requires
        0 <= i <= s.len(),
        forall|k: int| 0 <= k < i ==> !is_space_char(s[k]),
        i == s.len() || is_space_char(s[i]),
    ensures
        space_pos(s) == i,
{
    lemma_space_pos(s);
}

/// The whitespace-separated words of `s`, in order, with no empty words.
pub open spec fn split_ws(s: Seq<char>) -> Seq<Seq<char>>
    decreases s.len(),
    via split_ws_decreases
{
    let t = trim_front(s);
    if t.len() == 0 {
        Seq::empty()
    } else {
        seq![t.take(space_pos(t) as int)] + split_ws(t.skip(space_pos(t) as int))
    }
}

#[via_fn]
proof fn split_ws_decreases(s: Seq<char>) {
    lemma_trim_front_basic(s);
    let t = trim_front(s);
    if t.len() > 0 {
        lemma_space_pos(t);
    }
}

/// The whitespace-separated words of `s`, as `split_ws` describes.
pub fn split_ws_str(s: &str) -> (r: Vec<String>)
    ensures
        r.deep_view() == split_ws(s@),
{
    let n = s.unicode_len();
    let mut r: Vec<String> = Vec::new();
    let mut p: usize = 0;
    proof {
        assert(s@.skip(0) =~= s@);
        assert(r.deep_view() =~= Seq::<Seq<char>>::empty());
    }
    while p < n
        invariant
            0 <= p <= n,
            n == s@.len(),
            split_ws(s@) == r.deep_view() + split_ws(s@.skip(p as int)),
        decreases n - p,
    {
        let ghost rem = s@.skip(p as int);
        let i = first_non_space(s, p);
        proof {
            lemma_trim_front_skip(s@, p as int, i as int);
        }
        if i == n {
            proof {
                assert(trim_front(rem) =~= s@.skip(n as int));
                assert(s@.skip(n as int).len() == 0);
                assert(r.deep_view() + split_ws(rem) =~= r.deep_view());
            }
            return r;
        }
        let mut j = i;
        while j < n && !is_space(s.get_char(j))
            invariant
                i <= j <= n,
                n == s@.len(),
                forall|k: int| i <= k < j ==> !is_space_char(s@[k]),
            decreases n - j,
        {
            j = j + 1;
        }
        let ghost t = trim_front(rem);
        proof {
            assert(t =~= s@.skip(i as int));
            assert(forall|k: int| 0 <= k < t.len() ==> t[k] == s@[k + i]);
            lemma_space_pos_unique(t, j - i);
            assert(t.take(j - i) =~= s@.subrange(i as int, j as int));
            assert(t.skip(j - i) =~= s@.skip(j as int));
        }
        let word = s.substring_char(i, j);
        r.push(String::from_str(word));
        proof {
            assert(r.deep_view() =~= (r.deep_view().drop_last()).push(s@.subrange(
                i as int,
                j as int,
            )));
            assert(split_ws(rem) == seq![t.take(j - i)] + split_ws(t.skip(j - i)));
            assert(r.deep_view() + split_ws(s@.skip(j as int)) =~= split_ws(s@));
        }
        p = j;
    }
    proof {
        assert(trim_front(s@.skip(n as int)).len() == 0);
        assert(r.deep_view() + split_ws(s@.skip(n as int)) =~= r.deep_view());
    }
    r
}

/// Character-for-character equality of two slices.
pub fn str_eq(a: &str, b: &str) -> (r: bool)
    ensures
        r == (a@ == b@),
{
    let n = a.unicode_len();
    let m = b.unicode_len();
    if n != m {
        return false;
    }
    let mut k: usize = 0;
    while k < n
        invariant
            0 <= k <= n,
            n == a@.len(),
            n == b@.len(),
            forall|j: int| 0 <= j < k ==> a@[j] == b@[j],
        decreases n - k,
    {
        if a.get_char(k) != b.get_char(k) {
            return false;
        }
        k = k + 1;
    }
    proof {
        assert(a@ =~= b@);
    }
    true
}

/// The character of one decimal digit.
pub open spec fn dec_digit(d: nat) -> char {
    if d == 0 {
        '0'
    } else if d == 1 {
        '1'
    } else if d == 2 {
        '2'
    } else if d == 3 {
        '3'
    } else if d == 4 {
        '4'
    } else if d == 5 {
        '5'
    } else if d == 6 {
        '6'
    } else if d == 7 {
        '7'
    } else if d == 8 {
        '8'
    } else {
        '9'
    }
}

/// The decimal digits of `n`, most significant first.
pub open spec fn dec_str(n: nat) -> Seq<char>
    decreases n,
{
    if n < 10 {
        seq![dec_digit(n)]
    } else {
        dec_str(n / 10).push(dec_digit(n % 10))
    }
}

fn push_digit(s: &mut String, d: usize)
    requires
        d < 10,
    ensures
        final(s)@ == old(s)@ + seq![dec_digit(d as nat)],
{
    proof {
        reveal_strlit("0");
        reveal_strlit("1");
        reveal_strlit("2");
        reveal_strlit("3");
        reveal_strlit("4");
        reveal_strlit("5");
        reveal_strlit("6");
        reveal_strlit("7");
        reveal_strlit("8");
        reveal_strlit("9");
    }
    if d == 0 {
        s.append("0");
    } else if d == 1 {
        s.append("1");
    } else if d == 2 {
        s.append("2");
    } else if d == 3 {
        s.append("3");
    } else if d == 4 {
        s.append("4");
    } else if d == 5 {
        s.append("5");
    } else if d == 6 {
        s.append("6");
    } else if d == 7 {
        s.append("7");
    } else if d == 8 {
        s.append("8");
    } else {
        s.append("9");
    }
    proof {
        assert(s@ =~= old(s)@ + seq![dec_digit(d as nat)]);
    }
}

/// Appends the decimal form of `n`.
pub fn append_decimal(s: &mut String, n: usize)
    ensures
        final(s)@ == old(s)@ + dec_str(n as nat),
    decreases n,
{
    if n < 10 {
        push_digit(s, n);
    } else {
        append_decimal(s, n / 10);
        push_digit(s, n % 10);
        proof {
            assert(old(s)@ + dec_str(n as nat) =~= (old(s)@ + dec_str(n as nat / 10)) + seq![
                dec_digit(n as nat % 10),
            ]);
        }
    }
}

/// Case-insensitive equality of characters, folding ASCII letters only.
pub open spec fn char_eq_ci(a: char, b: char) -> bool {
    a == b || ('A' <= a && a <= 'Z' && a as int + 32 == b as int) || ('A' <= b && b <= 'Z' && b
        as int + 32 == a as int)
}

/// Case-insensitive equality of sequences, folding ASCII letters only.
pub open spec fn seq_eq_ci(s: Seq<char>, t: Seq<char>) -> bool {
    s.len() == t.len() && forall|k: int| 0 <= k < s.len() ==> char_eq_ci(s[k], t[k])
}

pub fn str_eq_ci(s: &str, t: &str) -> (r: bool)
    ensures
        r == seq_eq_ci(s@, t@),
{
    let n = s.unicode_len();
    let m = t.unicode_len();
    if n != m {
        return false;
    }
    let mut k: usize = 0;
    while k < n
        invariant
            0 <= k <= n,
            n == s@.len(),
            n == t@.len(),
            forall|j: int| 0 <= j < k ==> char_eq_ci(s@[j], t@[j]),
        decreases n - k,
    {
        let a = s.get_char(k);
        let b = t.get_char(k);
        let fold = (('A' <= a && a <= 'Z' && a as u32 + 32 == b as u32) || ('A' <= b && b <= 'Z'
            && b as u32 + 32 == a as u32));
        if !(a == b || fold) {
            return false;
        }
        k = k + 1;
    }
    true
}

} // verus!

