//! String utilities shared by the resolver and the completion engine:
//! substring search, splitting and joining on a separator character,
//! prefix tests, and a case-insensitive lexicographic comparison.

use vstd::prelude::*;

verus! {

/// `pat` occurs somewhere in `s`.
pub open spec fn contains_seq(s: Seq<char>, pat: Seq<char>) -> bool {
    exists|i: int|
        0 <= i && i + pat.len() <= s.len() && #[trigger] s.subrange(i, i + pat.len()) == pat
}

/// `p` is a prefix of `s`.
pub open spec fn starts_with_seq(s: Seq<char>, p: Seq<char>) -> bool {
    p.len() <= s.len() && s.subrange(0, p.len() as int) == p
}

/// Splitting `s` on `sep`, written with an accumulator: `cur` is the segment
/// being read and `acc` the segments already complete.
pub open spec fn split_acc(
    s: Seq<char>,
    sep: char,
    cur: Seq<char>,
    acc: Seq<Seq<char>>,
) -> Seq<Seq<char>>
    decreases s.len(),
{
    if s.len() == 0 {
        acc.push(cur)
    } else if s[0] == sep {
        split_acc(s.drop_first(), sep, Seq::empty(), acc.push(cur))
    } else {
        split_acc(s.drop_first(), sep, cur.push(s[0]), acc)
    }
}

/// The segments of `s` between occurrences of `sep`. Always non-empty:
/// splitting the empty string yields one empty segment.
pub open spec fn split_seq(s: Seq<char>, sep: char) -> Seq<Seq<char>> {
    split_acc(s, sep, Seq::empty(), Seq::empty())
}

/// The segments of `parts` joined with `sep` between each pair.
pub open spec fn join_seq(parts: Seq<Seq<char>>, sep: char) -> Seq<char>
    decreases parts.len(),
{
    if parts.len() == 0 {
        Seq::empty()
    } else if parts.len() == 1 {
        parts[0]
    } else {
        parts[0] + seq![sep] + join_seq(parts.drop_first(), sep)
    }
}

/// How often `c` occurs in `s`.
pub open spec fn count_char(s: Seq<char>, c: char) -> nat
    decreases s.len(),
{
    if s.len() == 0 {
        0
    } else if s[0] == c {
        1 + count_char(s.drop_first(), c)
    } else {
        count_char(s.drop_first(), c)
    }
}

/// `c` occurs in `s`.
pub open spec fn has_char(s: Seq<char>, c: char) -> bool {
    exists|i: int| 0 <= i < s.len() && s[i] == c
}

/// The views of a sequence of owned strings.
pub open spec fn str_views(v: Seq<String>) -> Seq<Seq<char>> {
    Seq::new(v.len(), |i: int| v[i]@)
}

/// Case-sensitive lexicographic order on character sequences, by code point.
pub open spec fn lex_cmp_seq(a: Seq<char>, b: Seq<char>) -> core::cmp::Ordering
    decreases a.len(),
{
    if a.len() == 0 && b.len() == 0 {
        core::cmp::Ordering::Equal
    } else if a.len() == 0 {
        core::cmp::Ordering::Less
    } else if b.len() == 0 {
        core::cmp::Ordering::Greater
    } else if (a[0] as u32) < (b[0] as u32) {
        core::cmp::Ordering::Less
    } else if (b[0] as u32) < (a[0] as u32) {
        core::cmp::Ordering::Greater
    } else {
        lex_cmp_seq(a.drop_first(), b.drop_first())
    }
}

/// What `str::to_lowercase` returns; it depends on the characters alone.
pub uninterp spec fn lower_of(s: Seq<char>) -> Seq<char>;

/// Every character of `s` is an ASCII code point.
pub open spec fn ascii_seq(s: Seq<char>) -> bool {
    forall|i: int| 0 <= i < s.len() ==> (s[i] as u32) < 128
}

/// The code point of the ASCII lowercase of `c`: letters `A` through `Z`
/// move down into `a` through `z`, anything else stays as it is.
pub open spec fn ascii_lower_code(c: char) -> int {
    if 'A' as u32 <= c as u32 && c as u32 <= 'Z' as u32 {
        c as u32 + 32
    } else {
        c as u32 as int
    }
}

/// Relies on `str::to_lowercase`: the lowercase form of a string, a pure
/// function of its characters, named `lower_of` in contracts. On an ASCII
/// string it maps each character to its ASCII lowercase, keeping the
/// length, which its documentation and its ASCII fast path plainly give.
#[verifier::external_body]
pub(crate) fn lowercase(s: &str) -> (r: String)
    ensures
        r@ == lower_of(s@),
        ascii_seq(s@) ==> r@.len() == s@.len() && forall|i: int|
            0 <= i < s@.len() ==> (r@[i] as u32) == ascii_lower_code(s@[i]),
{
    s.to_lowercase()
}

/// Whether two string slices hold the same characters.
pub fn eq_str(a: &str, b: &str) -> (r: bool)
    ensures
        r == (a@ == b@),
{
    let alen = a.unicode_len();
    let blen = b.unicode_len();
    if alen != blen {
        return false;
    }
    let mut i: usize = 0;
    while i < alen
        invariant
            0 <= i <= alen,
            alen == a@.len(),
            alen == b@.len(),
            forall|k: int| 0 <= k < i ==> a@[k] == b@[k],
        decreases alen - i,
    {
        if a.get_char(i) != b.get_char(i) {
            return false;
        }
        i = i + 1;
    }
    proof {
        assert(a@ =~= b@);
    }
    true
}

/// Whether `p` is a literal prefix of `s`.
pub fn starts_with_str(s: &str, p: &str) -> (r: bool)
    ensures
        r == starts_with_seq(s@, p@),
{
    let slen = s.unicode_len();
    let plen = p.unicode_len();
    if plen > slen {
        return false;
    }
    let mut i: usize = 0;
    while i < plen
        invariant
            0 <= i <= plen,
            plen == p@.len(),
            slen == s@.len(),
            plen <= slen,
            forall|k: int| 0 <= k < i ==> s@[k] == p@[k],
        decreases plen - i,
    {
        if s.get_char(i) != p.get_char(i) {
            return false;
        }
        i = i + 1;
    }
    proof {
        assert(s@.subrange(0, p@.len() as int) =~= p@);
    }
    true
}

/// Whether `s@.subrange(i, i + p@.len()) == p@`.
fn match_at(s: &str, p: &str, i: usize) -> (r: bool)
    requires
        i + p@.len() <= s@.len(),
    ensures
        r == (s@.subrange(i as int, i + p@.len()) == p@),
{
    let slen = s.unicode_len();
    let plen = p.unicode_len();
    let mut j: usize = 0;
    while j < plen
        invariant
            0 <= j <= plen,
            plen == p@.len(),
            slen == s@.len(),
            i + plen <= slen,
            forall|k: int| 0 <= k < j ==> s@[i + k] == p@[k],
        decreases plen - j,
    {
        if s.get_char(i + j) != p.get_char(j) {
            proof {
                assert(s@.subrange(i as int, i + p@.len())[j as int] == s@[i + j]);
            }
            return false;
        }
        j = j + 1;
    }
    proof {
        assert(s@.subrange(i as int, i + p@.len()) =~= p@);
    }
    true
}

/// Whether `pat` occurs anywhere in `s`, as a literal substring.
pub fn contains_str(s: &str, pat: &str) -> (r: bool)
    ensures
        r == contains_seq(s@, pat@),
{
    let slen = s.unicode_len();
    let plen = pat.unicode_len();
    if plen > slen {
        proof {
            assert(!contains_seq(s@, pat@));
        }
        return false;
    }
    if plen == 0 {
        proof {
            assert(s@.subrange(0, 0 + pat@.len() as int) =~= pat@);
        }
        return true;
    }
    let bound = slen - plen;
    let mut i: usize = 0;
    while i <= bound
        invariant
            0 <= i <= bound + 1,
            1 <= plen <= slen,
            bound == slen - plen,
            slen == s@.len(),
            plen == pat@.len(),
            forall|k: int|
                0 <= k < i ==> #[trigger] s@.subrange(k, k + pat@.len()) != pat@,
        decreases bound + 1 - i,
    {
        if match_at(s, pat, i) {
            return true;
        }
        i = i + 1;
    }
    proof {
        assert(!contains_seq(s@, pat@));
    }
    false
}

/// The accumulator form of splitting yields one segment per separator, plus
/// the segments already accumulated and the one being read.
pub proof fn lemma_split_acc_len(s: Seq<char>, sep: char, cur: Seq<char>, acc: Seq<Seq<char>>)
    ensures
        split_acc(s, sep, cur, acc).len() == acc.len() + 1 + count_char(s, sep),
    decreases s.len(),
{
    if s.len() == 0 {
    } else if s[0] == sep {
        lemma_split_acc_len(s.drop_first(), sep, Seq::empty(), acc.push(cur));
    } else {
        lemma_split_acc_len(s.drop_first(), sep, cur.push(s[0]), acc);
    }
}

/// Splitting yields one segment more than there are separators.
pub proof fn lemma_split_len(s: Seq<char>, sep: char)
    ensures
        split_seq(s, sep).len() == 1 + count_char(s, sep),
{
    lemma_split_acc_len(s, sep, Seq::empty(), Seq::empty());
}

/// Counting a character distributes over concatenation.
pub proof fn lemma_count_char_concat(a: Seq<char>, b: Seq<char>, c: char)
    ensures
        count_char(a + b, c) == count_char(a, c) + count_char(b, c),
    decreases a.len(),
{
    if a.len() == 0 {
        assert(a + b =~= b);
    } else {
        assert((a + b).drop_first() =~= a.drop_first() + b);
        assert((a + b)[0] == a[0]);
        lemma_count_char_concat(a.drop_first(), b, c);
    }
}

/// A string counts zero of a character exactly when it does not hold it.
pub proof fn lemma_count_char_zero(s: Seq<char>, c: char)
    ensures
        (count_char(s, c) == 0) <==> !has_char(s, c),
    decreases s.len(),
{
    if s.len() > 0 {
        lemma_count_char_zero(s.drop_first(), c);
        if s[0] == c {
            assert(has_char(s, c));
        } else {
            if has_char(s, c) {
                let i = choose|i: int| 0 <= i < s.len() && s[i] == c;
                assert(s.drop_first()[i - 1] == c);
                assert(has_char(s.drop_first(), c));
            }
            if has_char(s.drop_first(), c) {
                let i = choose|i: int| 0 <= i < s.drop_first().len() && s.drop_first()[i] == c;
                assert(s[i + 1] == c);
                assert(has_char(s, c));
            }
        }
    }
}

/// A string that holds the separator splits into at least two segments.
pub proof fn lemma_has_char_count(s: Seq<char>, c: char)
    requires
        has_char(s, c),
    ensures
        count_char(s, c) >= 1,
    decreases s.len(),
{
    let i = choose|i: int| 0 <= i < s.len() && s[i] == c;
    if s[0] != c {
        assert(s.drop_first()[i - 1] == c);
        lemma_has_char_count(s.drop_first(), c);
    }
}

/// Relies on `String::push`: appends the given character to the string.
pub assume_specification[ String::push ](s: &mut String, c: char)
    ensures
        final(s)@ == old(s)@.push(c),
;

/// `suf` is a suffix of `s`.
pub open spec fn ends_with_seq(s: Seq<char>, suf: Seq<char>) -> bool {
    suf.len() <= s.len() && s.subrange(s.len() - suf.len(), s.len() as int) == suf
}

/// Whether `suf` is a literal suffix of `s`.
pub fn ends_with_str(s: &str, suf: &str) -> (r: bool)
    ensures
        r == ends_with_seq(s@, suf@),
{
    let slen = s.unicode_len();
    let flen = suf.unicode_len();
    if flen > slen {
        return false;
    }
    let off = slen - flen;
    let mut i: usize = 0;
    while i < flen
        invariant
            0 <= i <= flen,
            flen == suf@.len(),
            slen == s@.len(),
            off == slen - flen,
            forall|k: int| 0 <= k < i ==> s@[off + k] == suf@[k],
        decreases flen - i,
    {
        if s.get_char(off + i) != suf.get_char(i) {
            proof {
                assert(s@.subrange(s@.len() - suf@.len(), s@.len() as int)[i as int] == s@[off
                    + i]);
            }
            return false;
        }
        i = i + 1;
    }
    proof {
        assert(s@.subrange(s@.len() - suf@.len(), s@.len() as int) =~= suf@);
    }
    true
}

/// Splits `s` on every occurrence of `sep`; the result is never empty.
pub fn split_str(s: &str, sep: char) -> (parts: Vec<String>)
    ensures
        str_views(parts@) == split_seq(s@, sep),
        parts@.len() >= 1,
{
    let n = s.unicode_len();
    let mut parts: Vec<String> = Vec::new();
    let mut start: usize = 0;
    let mut i: usize = 0;
    proof {
        assert(s@.skip(0) =~= s@);
        assert(s@.subrange(0, 0) =~= Seq::<char>::empty());
        assert(str_views(parts@) =~= Seq::<Seq<char>>::empty());
    }
    while i < n
        invariant
            0 <= start <= i <= n,
            n == s@.len(),
            split_acc(
                s@.skip(i as int),
                sep,
                s@.subrange(start as int, i as int),
                str_views(parts@),
            ) == split_seq(s@, sep),
        decreases n - i,
    {
        let ghost prev_parts = parts@;
        let ghost cur = s@.subrange(start as int, i as int);
        if s.get_char(i) == sep {
            let seg = String::from_str(s.substring_char(start, i));
            parts.push(seg);
            start = i + 1;
            proof {
                assert(str_views(parts@) =~= str_views(prev_parts).push(cur));
            }
        }
        i = i + 1;
        proof {
            assert(s@.skip(i - 1).drop_first() =~= s@.skip(i as int));
            assert(s@.skip(i - 1)[0] == s@[i - 1]);
            if s@[i - 1] != sep {
                assert(s@.subrange(start as int, i - 1).push(s@[i - 1]) =~= s@.subrange(
                    start as int,
                    i as int,
                ));
            } else {
                assert(s@.subrange(start as int, i as int) =~= Seq::<char>::empty());
            }
        }
    }
    let seg = String::from_str(s.substring_char(start, n));
    parts.push(seg);
    proof {
        assert(s@.skip(n as int) =~= Seq::<char>::empty());
        assert(str_views(parts@) =~= str_views(parts@.drop_last()).push(
            s@.subrange(start as int, n as int),
        ));
    }
    parts
}

/// `join_seq` over a sequence extended on the right.
pub proof fn lemma_join_push(parts: Seq<Seq<char>>, x: Seq<char>, sep: char)
    ensures
        join_seq(parts.push(x), sep) == if parts.len() == 0 {
            x
        } else {
            join_seq(parts, sep) + seq![sep] + x
        },
    decreases parts.len(),
{
    if parts.len() == 0 {
        assert(parts.push(x)[0] == x);
        assert(parts.push(x).len() == 1);
    } else if parts.len() == 1 {
        assert(parts.push(x).drop_first() =~= parts.drop_first().push(x));
        lemma_join_push(parts.drop_first(), x, sep);
    } else {
        assert(parts.push(x).drop_first() =~= parts.drop_first().push(x));
        lemma_join_push(parts.drop_first(), x, sep);
    }
}

/// Joins `parts[start..upto]` with `sep` between each pair of segments.
pub fn join_range(parts: &Vec<String>, start: usize, upto: usize, sep: char) -> (r: String)
    requires
        start <= upto <= parts@.len(),
    ensures
        r@ == join_seq(str_views(parts@).subrange(start as int, upto as int), sep),
{
    let mut out = String::new();
    if start >= upto {
        proof {
            assert(str_views(parts@).subrange(start as int, upto as int) =~= Seq::<
                Seq<char>,
            >::empty());
        }
        return out;
    }
    out.append(parts[start].as_str());
    let mut i: usize = start + 1;
    while i < upto
        invariant
            start < i <= upto <= parts@.len(),
            out@ == join_seq(str_views(parts@).subrange(start as int, i as int), sep),
        decreases upto - i,
    {
        let mut sep_str = String::new();
        sep_str.push(sep);
        out.append(sep_str.as_str());
        out.append(parts[i].as_str());
        proof {
            let pre = str_views(parts@).subrange(start as int, i as int);
            assert(str_views(parts@).subrange(start as int, i + 1) =~= pre.push(
                str_views(parts@)[i as int],
            ));
            lemma_join_push(pre, str_views(parts@)[i as int], sep);
            assert(pre.len() > 0);
            assert(out@ =~= join_seq(pre.push(str_views(parts@)[i as int]), sep));
        }
        i = i + 1;
    }
    proof {
        let ghost sv = str_views(parts@);
        assert(sv.subrange(start as int, start + 1)[0] == sv[start as int]);
    }
    out
}

/// Compares two strings by code point, left to right.
pub fn lex_cmp_str(a: &str, b: &str) -> (o: core::cmp::Ordering)
    ensures
        o == lex_cmp_seq(a@, b@),
{
    let alen = a.unicode_len();
    let blen = b.unicode_len();
    let mut i: usize = 0;
    proof {
        assert(a@.skip(0) =~= a@);
        assert(b@.skip(0) =~= b@);
    }
    while i < alen && i < blen
        invariant
            0 <= i <= alen,
            i <= blen,
            alen == a@.len(),
            blen == b@.len(),
            lex_cmp_seq(a@, b@) == lex_cmp_seq(a@.skip(i as int), b@.skip(i as int)),
        decreases alen - i,
    {
        let ca = a.get_char(i);
        let cb = b.get_char(i);
        proof {
            assert(a@.skip(i as int)[0] == a@[i as int]);
            assert(b@.skip(i as int)[0] == b@[i as int]);
        }
        if (ca as u32) < (cb as u32) {
            return core::cmp::Ordering::Less;
        }
        if (cb as u32) < (ca as u32) {
            return core::cmp::Ordering::Greater;
        }
        proof {
            assert(a@.skip(i as int).drop_first() =~= a@.skip(i + 1));
            assert(b@.skip(i as int).drop_first() =~= b@.skip(i + 1));
        }
        i = i + 1;
    }
    proof {
        if i == alen {
            assert(a@.skip(i as int) =~= Seq::<char>::empty());
        }
        if i == blen {
            assert(b@.skip(i as int) =~= Seq::<char>::empty());
        }
    }
    if alen == blen {
        core::cmp::Ordering::Equal
    } else if i == alen {
        core::cmp::Ordering::Less
    } else {
        core::cmp::Ordering::Greater
    }
}

/// Whether the character `c` occurs in `s`.
pub fn has_char_str(s: &str, c: char) -> (r: bool)
    ensures
        r == has_char(s@, c),
{
    let slen = s.unicode_len();
    let mut i: usize = 0;
    while i < slen
        invariant
            0 <= i <= slen,
            slen == s@.len(),
            forall|k: int| 0 <= k < i ==> s@[k] != c,
        decreases slen - i,
    {
        if s.get_char(i) == c {
            return true;
        }
        i = i + 1;
    }
    false
}

} // verus!
