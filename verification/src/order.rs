//! Ordering of completion candidates: candidates are sorted by a
//! case-insensitive lexicographic comparison of their labels, ties keeping
//! their insertion order (a stable insertion sort).

use vstd::prelude::*;
use core::cmp::Ordering;
use crate::strings::{lex_cmp_seq, lex_cmp_str, lower_of, lowercase};

verus! {

/// The views of a sequence of (value, label) candidate pairs.
pub open spec fn pairs_view(v: Seq<(String, String)>) -> Seq<(Seq<char>, Seq<char>)> {
    Seq::new(v.len(), |i: int| (v[i].0@, v[i].1@))
}

/// How two candidates compare: case-insensitively, by label.
pub open spec fn cmp_labels_spec(l1: Seq<char>, l2: Seq<char>) -> Ordering {
    lex_cmp_seq(lower_of(l1), lower_of(l2))
}

/// `x` sorts no later than `y`.
pub open spec fn le_label(x: (Seq<char>, Seq<char>), y: (Seq<char>, Seq<char>)) -> bool {
    cmp_labels_spec(x.1, y.1) != Ordering::Greater
}

/// The candidates stand in label order.
pub open spec fn sorted_by_label(s: Seq<(Seq<char>, Seq<char>)>) -> bool {
    forall|i: int, j: int| 0 <= i < j < s.len() ==> le_label(#[trigger] s[i], #[trigger] s[j])
}

/// `x` inserted before the first candidate that sorts strictly after it, so
/// that a candidate with an equal label keeps its earlier place.
pub open spec fn insert_by_label(
    x: (Seq<char>, Seq<char>),
    s: Seq<(Seq<char>, Seq<char>)>,
) -> Seq<(Seq<char>, Seq<char>)>
    decreases s.len(),
{
    if s.len() == 0 {
        seq![x]
    } else if cmp_labels_spec(x.1, s[0].1) == Ordering::Less {
        seq![x] + s
    } else {
        seq![s[0]] + insert_by_label(x, s.drop_first())
    }
}

/// The stable sort of the candidates by label.
pub open spec fn sort_by_label(s: Seq<(Seq<char>, Seq<char>)>) -> Seq<(Seq<char>, Seq<char>)>
    decreases s.len(),
{
    if s.len() == 0 {
        Seq::empty()
    } else {
        insert_by_label(s.last(), sort_by_label(s.drop_last()))
    }
}

/// The comparison flips with its arguments.
pub proof fn lemma_lex_cmp_flip(a: Seq<char>, b: Seq<char>)
    ensures
        (lex_cmp_seq(a, b) == Ordering::Less) <==> (lex_cmp_seq(b, a) == Ordering::Greater),
        (lex_cmp_seq(a, b) == Ordering::Equal) <==> (lex_cmp_seq(b, a) == Ordering::Equal),
    decreases a.len(),
{
    if a.len() > 0 && b.len() > 0 && !((a[0] as u32) < (b[0] as u32)) && !((b[0] as u32) < (
    a[0] as u32)) {
        lemma_lex_cmp_flip(a.drop_first(), b.drop_first());
    }
}

/// The comparison is transitive.
pub proof fn lemma_lex_cmp_trans(a: Seq<char>, b: Seq<char>, c: Seq<char>)
    requires
        lex_cmp_seq(a, b) != Ordering::Greater,
        lex_cmp_seq(b, c) != Ordering::Greater,
    ensures
        lex_cmp_seq(a, c) != Ordering::Greater,
    decreases a.len(),
{
    if a.len() > 0 && b.len() > 0 && c.len() > 0 {
        if !((a[0] as u32) < (c[0] as u32)) && !((c[0] as u32) < (a[0] as u32)) {
            if !((a[0] as u32) < (b[0] as u32)) && !((b[0] as u32) < (a[0] as u32)) {
                lemma_lex_cmp_trans(a.drop_first(), b.drop_first(), c.drop_first());
            }
        }
    }
}

/// Inserting keeps sortedness, adds the one candidate to the multiset, and
/// every candidate of the result is the inserted one or one of the old ones.
pub proof fn lemma_insert_by_label(x: (Seq<char>, Seq<char>), s: Seq<(Seq<char>, Seq<char>)>)
    requires
        sorted_by_label(s),
    ensures
        sorted_by_label(insert_by_label(x, s)),
        insert_by_label(x, s).to_multiset() =~= s.to_multiset().insert(x),
        insert_by_label(x, s).len() == s.len() + 1,
        forall|k: int|
            0 <= k < insert_by_label(x, s).len() ==> (#[trigger] insert_by_label(x, s)[k] == x
                || s.contains(insert_by_label(x, s)[k])),
    decreases s.len(),
{
    broadcast use vstd::seq_lib::group_to_multiset_ensures;

    let r = insert_by_label(x, s);
    if s.len() == 0 {
        assert(seq![x] =~= Seq::<(Seq<char>, Seq<char>)>::empty().push(x));
    } else if cmp_labels_spec(x.1, s[0].1) == Ordering::Less {
        assert forall|i: int, j: int| 0 <= i < j < r.len() implies le_label(r[i], r[j]) by {
            if i == 0 && j > 1 {
                lemma_lex_cmp_trans(lower_of(x.1), lower_of(s[0].1), lower_of(s[j - 1].1));
            }
        }
        lemma_multiset_concat_push(x, s);
        assert forall|k: int| 0 <= k < r.len() implies (r[k] == x || s.contains(r[k])) by {
            if k > 0 {
                assert(r[k] == s[k - 1]);
            }
        }
    } else {
        let s1 = s.drop_first();
        assert(sorted_by_label(s1)) by {
            assert forall|i: int, j: int| 0 <= i < j < s1.len() implies le_label(
                s1[i],
                s1[j],
            ) by {
                assert(s1[i] == s[i + 1] && s1[j] == s[j + 1]);
            }
        }
        lemma_insert_by_label(x, s1);
        let t = insert_by_label(x, s1);
        assert(r =~= seq![s[0]] + t);
        // the head sorts no later than anything inserted behind it
        assert(cmp_labels_spec(s[0].1, x.1) != Ordering::Greater) by {
            lemma_lex_cmp_flip(lower_of(x.1), lower_of(s[0].1));
        }
        assert forall|i: int, j: int| 0 <= i < j < r.len() implies le_label(r[i], r[j]) by {
            if i == 0 {
                assert(r[j] == t[j - 1]);
                if t[j - 1] == x {
                } else {
                    let m = choose|m: int| 0 <= m < s1.len() && s1[m] == t[j - 1];
                    assert(s1[m] == s[m + 1]);
                }
            } else {
                assert(r[i] == t[i - 1] && r[j] == t[j - 1]);
            }
        }
        assert(r.to_multiset() =~= s.to_multiset().insert(x)) by {
            lemma_multiset_concat_push(s[0], t);
            assert(s =~= seq![s[0]] + s1);
            lemma_multiset_concat_push(s[0], s1);
        }
        assert forall|k: int| 0 <= k < r.len() implies (r[k] == x || s.contains(r[k])) by {
            if k == 0 {
                assert(s.contains(s[0]));
            } else {
                assert(r[k] == t[k - 1]);
                if t[k - 1] != x {
                    let m = choose|m: int| 0 <= m < s1.len() && s1[m] == t[k - 1];
                    assert(s[m + 1] == s1[m]);
                }
            }
        }
    }
}

/// Prepending one element adds it to the multiset.
proof fn lemma_multiset_concat_push(x: (Seq<char>, Seq<char>), s: Seq<(Seq<char>, Seq<char>)>)
    ensures
        (seq![x] + s).to_multiset() =~= s.to_multiset().insert(x),
    decreases s.len(),
{
    broadcast use vstd::seq_lib::group_to_multiset_ensures;

    if s.len() == 0 {
        assert(seq![x] + s =~= Seq::<(Seq<char>, Seq<char>)>::empty().push(x));
    } else {
        let r = seq![x] + s;
        assert(r =~= (seq![x] + s.drop_last()).push(s.last()));
        assert(s =~= s.drop_last().push(s.last()));
        lemma_multiset_concat_push(x, s.drop_last());
    }
}

/// The stable sort is sorted, and a permutation of its input.
pub proof fn lemma_sort_by_label(s: Seq<(Seq<char>, Seq<char>)>)
    ensures
        sorted_by_label(sort_by_label(s)),
        sort_by_label(s).to_multiset() =~= s.to_multiset(),
        sort_by_label(s).len() == s.len(),
    decreases s.len(),
{
    broadcast use vstd::seq_lib::group_to_multiset_ensures;

    if s.len() > 0 {
        lemma_sort_by_label(s.drop_last());
        lemma_insert_by_label(s.last(), sort_by_label(s.drop_last()));
        assert(s =~= s.drop_last().push(s.last()));
    }
}

/// Inserting at the first position whose label sorts strictly after `x`
/// realizes `insert_by_label`.
pub proof fn lemma_insert_at(
    x: (Seq<char>, Seq<char>),
    s: Seq<(Seq<char>, Seq<char>)>,
    j: int,
)
    requires
        0 <= j <= s.len(),
        forall|k: int| 0 <= k < j ==> cmp_labels_spec(x.1, (#[trigger] s[k]).1) != Ordering::Less,
        j < s.len() ==> cmp_labels_spec(x.1, s[j].1) == Ordering::Less,
    ensures
        insert_by_label(x, s) == s.take(j) + seq![x] + s.skip(j),
    decreases j,
{
    if j == 0 {
        if s.len() == 0 {
            assert(insert_by_label(x, s) =~= s.take(0) + seq![x] + s.skip(0));
        } else {
            assert(seq![x] + s =~= s.take(0) + seq![x] + s.skip(0));
        }
    } else {
        let s1 = s.drop_first();
        assert forall|k: int| 0 <= k < j - 1 implies cmp_labels_spec(
            x.1,
            (#[trigger] s1[k]).1,
        ) != Ordering::Less by {
            assert(s1[k] == s[k + 1]);
        }
        lemma_insert_at(x, s1, j - 1);
        assert(seq![s[0]] + (s1.take(j - 1) + seq![x] + s1.skip(j - 1)) =~= s.take(j) + seq![x]
            + s.skip(j));
    }
}

/// The first index of `s` whose label sorts strictly after `label`, or the
/// length when no candidate does.
fn find_insert_pos(s: &Vec<(String, String)>, label: &str) -> (j: usize)
    ensures
        0 <= j <= s@.len(),
        forall|k: int|
            0 <= k < j ==> cmp_labels_spec(label@, (#[trigger] pairs_view(s@)[k]).1)
                != Ordering::Less,
        j < s@.len() ==> cmp_labels_spec(label@, pairs_view(s@)[j as int].1) == Ordering::Less,
{
    let mut j: usize = 0;
    while j < s.len()
        invariant
            0 <= j <= s@.len(),
            forall|k: int|
                0 <= k < j ==> cmp_labels_spec(label@, (#[trigger] pairs_view(s@)[k]).1)
                    != Ordering::Less,
        decreases s@.len() - j,
    {
        let o = cmp_labels(label, s[j].1.as_str());
        if matches!(o, Ordering::Less) {
            return j;
        }
        j = j + 1;
    }
    j
}

/// Compares two labels case-insensitively.
pub(crate) fn cmp_labels(l1: &str, l2: &str) -> (o: Ordering)
    ensures
        o == cmp_labels_spec(l1@, l2@),
{
    let low1 = lowercase(l1);
    let low2 = lowercase(l2);
    lex_cmp_str(low1.as_str(), low2.as_str())
}

/// Sorts the candidates by label, case-insensitively and stably.
pub fn sort_candidates(v: Vec<(String, String)>) -> (r: Vec<(String, String)>)
    ensures
        pairs_view(r@) == sort_by_label(pairs_view(v@)),
{
    let mut out: Vec<(String, String)> = Vec::new();
    let mut i: usize = 0;
    proof {
        assert(pairs_view(v@).take(0) =~= Seq::<(Seq<char>, Seq<char>)>::empty());
        assert(pairs_view(out@) =~= Seq::<(Seq<char>, Seq<char>)>::empty());
    }
    while i < v.len()
        invariant
            0 <= i <= v@.len(),
            pairs_view(out@) == sort_by_label(pairs_view(v@).take(i as int)),
        decreases v@.len() - i,
    {
        let ghost prev = pairs_view(out@);
        let x = (v[i].0.clone(), v[i].1.clone());
        let ghost xv = (x.0@, x.1@);
        let j = find_insert_pos(&out, x.1.as_str());
        out.insert(j, x);
        proof {
            lemma_insert_at(xv, prev, j as int);
            assert(pairs_view(out@) =~= prev.take(j as int) + seq![xv] + prev.skip(j as int));
            let t = pairs_view(v@).take(i + 1);
            assert(t.drop_last() =~= pairs_view(v@).take(i as int));
            assert(t.last() == xv);
        }
        i = i + 1;
    }
    proof {
        assert(pairs_view(v@).take(v@.len() as int) =~= pairs_view(v@));
    }
    out
}

} // verus!
