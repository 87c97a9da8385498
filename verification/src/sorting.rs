use vstd::prelude::*;

use crate::text::{chars_lt, seq_lt, views};

verus! {

/// `p` lists each index below `n` exactly once.
pub open spec fn is_permutation(p: Seq<usize>, n: nat) -> bool {
    &&& p.len() == n
    &&& forall|i: int| 0 <= i < p.len() ==> (#[trigger] p[i]) < n
    &&& forall|i: int, j: int| 0 <= i < j < p.len() ==> p[i] != p[j]
    &&& forall|a: usize| a < n ==> #[trigger] p.contains(a)
}

/// `a` may come before `b`: not greater in ascending order, not smaller in
/// descending order.
pub open spec fn key_le(a: i64, b: i64, descending: bool) -> bool {
    if descending {
        a >= b
    } else {
        a <= b
    }
}

/// The keys taken in the order of `p` are ordered.
pub open spec fn sorted_by_keys(p: Seq<usize>, keys: Seq<i64>, descending: bool) -> bool {
    forall|i: int, j: int|
        0 <= i < j < p.len() ==> key_le(#[trigger] keys[p[i] as int], #[trigger] keys[p[j] as int], descending)
}

/// Indices with equal keys keep their relative order.
pub open spec fn stable_by_keys(p: Seq<usize>, keys: Seq<i64>) -> bool {
    forall|i: int, j: int|
        0 <= i < j < p.len() && #[trigger] keys[p[i] as int] == #[trigger] keys[p[j] as int] ==> p[i] < p[j]
}

/// The order in which a stable sort by the keys puts the indices.
pub fn sort_indices_by_key(keys: &Vec<i64>, descending: bool) -> (p: Vec<usize>)
    ensures
        is_permutation(p@, keys.len() as nat),
        sorted_by_keys(p@, keys@, descending),
        stable_by_keys(p@, keys@),
{
    let n = keys.len();
    let mut p: Vec<usize> = Vec::new();
    let mut k: usize = 0;
    while k < n
        invariant
            k <= n == keys.len(),
            is_permutation(p@, k as nat),
            sorted_by_keys(p@, keys@, descending),
            stable_by_keys(p@, keys@),
        decreases n - k,
    {
        let key = keys[k];
        let mut pos: usize = 0;
        while pos < p.len() && ((descending && keys[p[pos]] >= key) || (!descending && keys[p[pos]]
            <= key))
            invariant
                pos <= p.len() == k,
                k < n == keys.len(),
                key == keys@[k as int],
                is_permutation(p@, k as nat),
                forall|i: int| 0 <= i < pos ==> key_le(#[trigger] keys@[p@[i] as int], key, descending),
            decreases p.len() - pos,
        {
            pos = pos + 1;
        }
        let ghost old_p = p@;
        p.insert(pos, k);
        assert(p@ == old_p.insert(pos as int, k));
        assert forall|i: int| 0 <= i < p@.len() implies (#[trigger] p@[i]) < k + 1 by {
            if i < pos {
                assert(p@[i] == old_p[i]);
            } else if i > pos {
                assert(p@[i] == old_p[i - 1]);
            }
        }
        assert forall|a: usize| a < k + 1 implies #[trigger] p@.contains(a) by {
            if a < k {
                assert(old_p.contains(a));
                let i = choose|i: int| 0 <= i < old_p.len() && old_p[i] == a;
                if i < pos {
                    assert(p@[i] == a);
                } else {
                    assert(p@[i + 1] == a);
                }
            } else {
                assert(p@[pos as int] == a);
            }
        }
        assert forall|i: int, j: int| 0 <= i < j < p@.len() implies p@[i] != p@[j] by {
            if i < pos {
                assert(p@[i] == old_p[i]);
            } else if i > pos {
                assert(p@[i] == old_p[i - 1]);
            }
            if j < pos {
                assert(p@[j] == old_p[j]);
            } else if j > pos {
                assert(p@[j] == old_p[j - 1]);
            }
        }
        assert forall|i: int, j: int| 0 <= i < j < p@.len() implies key_le(
            #[trigger] keys@[p@[i] as int],
            #[trigger] keys@[p@[j] as int],
            descending,
        ) && (keys@[p@[i] as int] == keys@[p@[j] as int] ==> p@[i] < p@[j]) by {
            if j < pos {
                assert(p@[i] == old_p[i]);
                assert(p@[j] == old_p[j]);
            } else if j == pos {
                assert(p@[i] == old_p[i]);
            } else if i < pos {
                assert(p@[i] == old_p[i]);
                assert(p@[j] == old_p[j - 1]);
                assert(pos < p.len() - 1);
                assert(old_p[pos as int] == p@[pos + 1]);
                assert(!key_le(keys@[old_p[pos as int] as int], key, descending));
                assert(key_le(keys@[old_p[pos as int] as int], keys@[old_p[j - 1] as int], descending)
                    || pos as int == j - 1);
            } else if i == pos {
                assert(p@[j] == old_p[j - 1]);
                assert(old_p[pos as int] == p@[pos + 1]);
                assert(!key_le(keys@[old_p[pos as int] as int], key, descending));
                assert(key_le(keys@[old_p[pos as int] as int], keys@[old_p[j - 1] as int], descending)
                    || pos as int == j - 1);
            } else {
                assert(p@[i] == old_p[i - 1]);
                assert(p@[j] == old_p[j - 1]);
            }
        }
        k = k + 1;
    }
    p
}


/// The order of `seq_lt` is asymmetric.
pub proof fn lemma_seq_lt_asymmetric(a: Seq<char>, b: Seq<char>)
    ensures
        seq_lt(a, b) ==> !seq_lt(b, a),
    decreases a.len(),
{
    if a.len() > 0 && b.len() > 0 && a[0] == b[0] {
        lemma_seq_lt_asymmetric(a.drop_first(), b.drop_first());
    }
}

/// The order of `seq_lt` is transitive.
pub proof fn lemma_seq_lt_transitive(a: Seq<char>, b: Seq<char>, c: Seq<char>)
    requires
        seq_lt(a, b),
        seq_lt(b, c),
    ensures
        seq_lt(a, c),
    decreases a.len(),
{
    if a.len() > 0 && b.len() > 0 && c.len() > 0 && a[0] == b[0] && b[0] == c[0] {
        lemma_seq_lt_transitive(a.drop_first(), b.drop_first(), c.drop_first());
    }
}

/// Texts in ascending order.
pub open spec fn is_sorted_text(s: Seq<Seq<char>>) -> bool {
    forall|i: int, j: int| 0 <= i < j < s.len() ==> !seq_lt(#[trigger] s[j], #[trigger] s[i])
}

/// Sorts texts in ascending order (as `sort_unstable` on `&str` orders them).
pub fn sort_texts(v: Vec<Vec<char>>) -> (r: Vec<Vec<char>>)
    ensures
        is_sorted_text(views(r@)),
        views(r@).to_multiset() == views(v@).to_multiset(),
{
    let mut r: Vec<Vec<char>> = Vec::new();
    let mut k: usize = 0;
    let n = v.len();
    assert(views(v@).take(0) =~= Seq::<Seq<char>>::empty());
    assert(views(r@) =~= views(v@).take(0));
    while k < n
        invariant
            k <= n == v.len(),
            is_sorted_text(views(r@)),
            views(r@).to_multiset() == views(v@).take(k as int).to_multiset(),
        decreases n - k,
    {
        let x = v[k].clone();
        let mut pos: usize = 0;
        while pos < r.len() && !chars_lt(&x, &r[pos])
            invariant
                pos <= r.len(),
                forall|i: int| 0 <= i < pos ==> !seq_lt(x@, #[trigger] views(r@)[i]),
            decreases r.len() - pos,
        {
            pos = pos + 1;
        }
        let ghost old_r = views(r@);
        r.insert(pos, x);
        let ghost nr = views(r@);
        assert(nr =~= old_r.insert(pos as int, x@));
        assert forall|i: int, j: int| 0 <= i < j < nr.len() implies !seq_lt(#[trigger] nr[j], #[trigger] nr[i]) by {
            if j < pos {
                assert(nr[i] == old_r[i] && nr[j] == old_r[j]);
            } else if j == pos {
                assert(nr[i] == old_r[i]);
            } else if i < pos {
                assert(nr[i] == old_r[i] && nr[j] == old_r[j - 1]);
                assert(seq_lt(x@, old_r[pos as int]));
                if seq_lt(old_r[j - 1], old_r[i]) {
                } else if seq_lt(nr[j], nr[i]) {
                    assert(!seq_lt(x@, old_r[i]));
                    if j - 1 > pos {
                        assert(!seq_lt(old_r[j - 1], old_r[pos as int]));
                        if seq_lt(old_r[j - 1], x@) {
                            lemma_seq_lt_transitive(old_r[j - 1], x@, old_r[pos as int]);
                        }
                    } else {
                        lemma_seq_lt_asymmetric(x@, old_r[pos as int]);
                    }
                    if !seq_lt(old_r[j - 1], x@) {
                        // old_r[j-1] >= x and old_r[i] <= x
                        if seq_lt(old_r[i], x@) {
                        }
                    }
                }
            } else if i == pos {
                assert(nr[i] == x@);
                assert(nr[j] == old_r[j - 1]);
                assert(seq_lt(x@, old_r[pos as int]));
                if j - 1 > pos {
                    assert(!seq_lt(old_r[j - 1], old_r[pos as int]));
                    if seq_lt(old_r[j - 1], x@) {
                        lemma_seq_lt_transitive(old_r[j - 1], x@, old_r[pos as int]);
                    }
                } else {
                    lemma_seq_lt_asymmetric(x@, old_r[pos as int]);
                }
            } else {
                assert(nr[i] == old_r[i - 1] && nr[j] == old_r[j - 1]);
            }
        }
        proof {
            vstd::seq_lib::to_multiset_insert(old_r, pos as int, x@);
            assert(views(v@).take(k + 1) =~= views(v@).take(k as int).push(x@));
            vstd::seq_lib::to_multiset_build(views(v@).take(k as int), x@);
        }
        k = k + 1;
    }
    assert(views(v@).take(n as int) =~= views(v@));
    r
}

} // verus!
