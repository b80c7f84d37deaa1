//! Stable ordering by text keys.
//!
//! A key is a list of text components compared one after another, as a
//! chain of `String` comparisons joined with `then` compares them. Sorting
//! returns the order of the positions, which callers apply to their rows.

use vstd::prelude::*;
use crate::text::{less_than, lemma_text_lt_irreflexive, lemma_text_lt_total, lemma_text_lt_transitive, text_lt};

verus! {

/// `a` comes strictly before `b`: at the first component where they
/// differ, `a`'s text comes first (a shorter list of equal components comes
/// first).
pub open spec fn key_lt(a: Seq<Seq<char>>, b: Seq<Seq<char>>) -> bool
    decreases a.len(),
{
    if a.len() == 0 {
        b.len() > 0
    } else if b.len() == 0 {
        false
    } else if a[0] != b[0] {
        text_lt(a[0], b[0])
    } else {
        key_lt(a.drop_first(), b.drop_first())
    }
}

pub proof fn lemma_key_lt_irreflexive(a: Seq<Seq<char>>)
    ensures
        !key_lt(a, a),
    decreases a.len(),
{
    if a.len() > 0 {
        lemma_key_lt_irreflexive(a.drop_first());
    }
}

pub proof fn lemma_key_lt_transitive(a: Seq<Seq<char>>, b: Seq<Seq<char>>, c: Seq<Seq<char>>)
    requires
        key_lt(a, b),
        key_lt(b, c),
    ensures
        key_lt(a, c),
    decreases a.len(),
{
    if a.len() > 0 && b.len() > 0 && c.len() > 0 {
        if a[0] == b[0] && b[0] == c[0] {
            lemma_key_lt_transitive(a.drop_first(), b.drop_first(), c.drop_first());
        } else if a[0] != b[0] && b[0] != c[0] {
            lemma_text_lt_transitive(a[0], b[0], c[0]);
            if a[0] == c[0] {
                lemma_text_lt_irreflexive(a[0]);
            }
        }
    }
}

pub proof fn lemma_key_lt_total(a: Seq<Seq<char>>, b: Seq<Seq<char>>)
    ensures
        key_lt(a, b) || key_lt(b, a) || a == b,
    decreases a.len(),
{
    if a.len() > 0 && b.len() > 0 {
        if a[0] == b[0] {
            lemma_key_lt_total(a.drop_first(), b.drop_first());
            if a.drop_first() == b.drop_first() {
                assert(a =~= seq![a[0]] + a.drop_first());
                assert(b =~= seq![b[0]] + b.drop_first());
            }
        } else {
            lemma_text_lt_total(a[0], b[0]);
        }
    } else if a.len() == 0 && b.len() == 0 {
        assert(a =~= b);
    }
}

/// Whether key `a` comes strictly before key `b`.
pub fn key_less(a: &Vec<Vec<char>>, b: &Vec<Vec<char>>) -> (res: bool)
    ensures
        res == key_lt(views(a@), views(b@)),
{
    let ghost va = views(a@);
    let ghost vb = views(b@);
    let mut i: usize = 0;
    assert(va.skip(0) =~= va);
    assert(vb.skip(0) =~= vb);
    while i < a.len() && i < b.len()
        invariant
            va == views(a@),
            vb == views(b@),
            i <= a.len(),
            i <= b.len(),
            key_lt(va, vb) == key_lt(va.skip(i as int), vb.skip(i as int)),
        decreases a.len() - i,
    {
        assert(va.skip(i as int)[0] == a@[i as int]@);
        assert(vb.skip(i as int)[0] == b@[i as int]@);
        if less_than(&a[i], &b[i]) {
            proof {
                lemma_text_lt_irreflexive(a@[i as int]@);
            }
            return true;
        }
        if less_than(&b[i], &a[i]) {
            proof {
                lemma_text_lt_irreflexive(a@[i as int]@);
                lemma_text_lt_total(a@[i as int]@, b@[i as int]@);
            }
            return false;
        }
        proof {
            lemma_text_lt_total(a@[i as int]@, b@[i as int]@);
            assert(va.skip(i as int).drop_first() =~= va.skip(i + 1));
            assert(vb.skip(i as int).drop_first() =~= vb.skip(i + 1));
        }
        i = i + 1;
    }
    i < b.len()
}

/// The views of a list of character vectors.
pub open spec fn views(v: Seq<Vec<char>>) -> Seq<Seq<char>> {
    Seq::new(v.len(), |k: int| v[k]@)
}

/// The views of a list of keys.
pub open spec fn key_views(keys: Seq<Vec<Vec<char>>>) -> Seq<Seq<Seq<char>>> {
    Seq::new(keys.len(), |k: int| views(keys[k]@))
}

/// `p` lists every position `0..keys.len()` exactly once.
pub open spec fn is_permutation_of_positions(p: Seq<usize>, n: int) -> bool {
    &&& p.len() == n
    &&& forall|i: int| 0 <= i < p.len() ==> #[trigger] p[i] < n
    &&& forall|i: int, j: int| 0 <= i < j < p.len() ==> p[i] != p[j]
}

/// `p` is the stable sorting order of `keys`: a permutation of the
/// positions in which keys never decrease and positions with equal keys
/// keep the order they came in.
pub open spec fn is_stable_order(keys: Seq<Seq<Seq<char>>>, p: Seq<usize>) -> bool {
    &&& is_permutation_of_positions(p, keys.len() as int)
    &&& forall|i: int, j: int| 0 <= i < j < p.len() ==> !key_lt(keys[p[j] as int], keys[#[trigger] p[i] as int])
        && (keys[p[i] as int] == keys[#[trigger] p[j] as int] ==> p[i] < p[j])
}

/// The stable sorting order of `keys` (insertion sort).
pub fn stable_order(keys: &Vec<Vec<Vec<char>>>) -> (res: Vec<usize>)
    ensures
        is_stable_order(key_views(keys@), res@),
{
    let ghost kv = key_views(keys@);
    let mut order: Vec<usize> = Vec::new();
    let mut n: usize = 0;
    while n < keys.len()
        invariant
            kv == key_views(keys@),
            n <= keys.len(),
            order@.len() == n,
            forall|i: int| 0 <= i < order@.len() ==> #[trigger] order@[i] < n,
            forall|i: int, j: int| 0 <= i < j < order@.len() ==> order@[i] != order@[j],
            forall|i: int, j: int| 0 <= i < j < order@.len() ==>
                !key_lt(kv[order@[j] as int], kv[#[trigger] order@[i] as int])
                && (kv[order@[i] as int] == kv[#[trigger] order@[j] as int] ==> order@[i] < order@[j]),
        decreases keys.len() - n,
    {
        // find the insertion point: after every key not greater than keys[n]
        let mut pos: usize = order.len();
        while pos > 0 && key_less(&keys[n], &keys[order[pos - 1]])
            invariant
                kv == key_views(keys@),
                n < keys.len(),
                pos <= order@.len(),
                forall|i: int| 0 <= i < order@.len() ==> #[trigger] order@[i] < n,
                forall|k: int| pos <= k < order@.len() ==> key_lt(kv[n as int], kv[#[trigger] order@[k] as int]),
            decreases pos,
        {
            assert(kv[n as int] == views(keys@[n as int]@));
            assert(kv[order@[pos - 1] as int] == views(keys@[order@[pos - 1] as int]@));
            pos = pos - 1;
        }
        let ghost before = order@;
        proof {
            if pos > 0 {
                assert(kv[n as int] == views(keys@[n as int]@));
                assert(kv[order@[pos - 1] as int] == views(keys@[order@[pos - 1] as int]@));
                assert(!key_lt(kv[n as int], kv[before[pos - 1] as int]));
            }
        }
        order.insert(pos, n);
        proof {
            assert forall|i: int| 0 <= i < order@.len() implies #[trigger] order@[i] < n + 1 by {
                if i < pos { assert(order@[i] == before[i]); }
                else if i > pos { assert(order@[i] == before[i - 1]); }
            }
            assert forall|i: int, j: int| 0 <= i < j < order@.len() implies order@[i] != order@[j] by {
                if i < pos && j < pos { } else if i < pos && j == pos {
                    assert(order@[i] == before[i]);
                } else if i < pos && j > pos {
                    assert(order@[i] == before[i]);
                    assert(order@[j] == before[j - 1]);
                } else if i == pos {
                    assert(order@[j] == before[j - 1]);
                } else {
                    assert(order@[i] == before[i - 1]);
                    assert(order@[j] == before[j - 1]);
                }
            }
            assert forall|i: int, j: int| 0 <= i < j < order@.len() implies
                !key_lt(kv[order@[j] as int], kv[#[trigger] order@[i] as int])
                && (kv[order@[i] as int] == kv[#[trigger] order@[j] as int] ==> order@[i] < order@[j]) by {
                let kn = kv[n as int];
                if j == pos {
                    // i < pos: key of before[i] is not greater than kn
                    let bi = before[i];
                    assert(order@[i] == bi);
                    if pos > 0 {
                        let bl = before[pos - 1];
                        assert(!key_lt(kn, kv[bl as int]));
                        if i < pos - 1 {
                            assert(!key_lt(kv[bl as int], kv[bi as int]));
                        }
                        lemma_key_lt_total(kn, kv[bl as int]);
                        if key_lt(kn, kv[bi as int]) {
                            lemma_key_lt_total(kv[bl as int], kv[bi as int]);
                            if kv[bl as int] == kv[bi as int] {
                            } else {
                                lemma_key_lt_transitive(kv[bi as int], kv[bl as int], kn);
                                lemma_key_lt_transitive(kn, kv[bi as int], kv[bl as int]);
                                lemma_key_lt_irreflexive(kn);
                            }
                        }
                    }
                    assert(bi < n);
                } else if i == pos {
                    let bj = before[j - 1];
                    assert(order@[j] == bj);
                    assert(key_lt(kn, kv[bj as int]));
                    if key_lt(kv[bj as int], kn) {
                        lemma_key_lt_transitive(kn, kv[bj as int], kn);
                        lemma_key_lt_irreflexive(kn);
                    }
                    lemma_key_lt_irreflexive(kn);
                } else {
                    let ii = if i < pos { i } else { i - 1 };
                    let jj = if j < pos { j } else { j - 1 };
                    assert(order@[i] == before[ii]);
                    assert(order@[j] == before[jj]);
                    assert(ii < jj);
                }
            }
        }
        n = n + 1;
    }
    order
}

/// A permutation of the positions `0..n` lists each of them: every
/// position appears in it.
pub proof fn lemma_permutation_covers(p: Seq<usize>, n: int, m: int)
    requires
        is_permutation_of_positions(p, n),
        0 <= m < n,
    ensures
        exists|k: int| 0 <= k < n && p[k] as int == m,
{
    let q: Seq<int> = p.map_values(|x: usize| x as int);
    assert(q.no_duplicates()) by {
        assert forall|i: int, j: int| 0 <= i < q.len() && 0 <= j < q.len() && i != j implies q[i] != q[j] by {
            if i < j {
                assert(p[i] != p[j]);
            } else {
                assert(p[j] != p[i]);
            }
        }
    }
    q.unique_seq_to_set();
    let r = vstd::set_lib::set_int_range(0, n);
    vstd::set_lib::lemma_int_range(0, n);
    assert(q.to_set().subset_of(r)) by {
        assert forall|x: int| q.to_set().contains(x) implies r.contains(x) by {
            let k = choose|k: int| 0 <= k < q.len() && q[k] == x;
            assert(p[k] < n);
        }
    }
    vstd::set_lib::lemma_len_subset(q.to_set(), r);
    vstd::set_lib::lemma_subset_equality(q.to_set(), r);
    assert(r.contains(m));
    assert(q.to_set().contains(m));
    assert(q.contains(m));
    let k = choose|k: int| 0 <= k < q.len() && q[k] == m;
    assert(p[k] as int == m);
}

} // verus!
